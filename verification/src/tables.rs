use vstd::prelude::*;
use crate::text::str_eq;

verus! {

/// The characters of each name in a list of names.
pub open spec fn names_view(v: Seq<&'static str>) -> Seq<Seq<char>> {
    v.map_values(|s: &'static str| s@)
}

/// The characters of each pair in a list of name pairs.
pub open spec fn pairs_view(v: Seq<(&'static str, &'static str)>) -> Seq<(Seq<char>, Seq<char>)> {
    v.map_values(|p: (&'static str, &'static str)| (p.0@, p.1@))
}

/// The value paired with the first occurrence of `key`, if any.
pub open spec fn spec_lookup(t: Seq<(Seq<char>, Seq<char>)>, key: Seq<char>) -> Option<Seq<char>>
    decreases t.len(),
{
    if t.len() == 0 {
        None
    } else if t[0].0 == key {
        Some(t[0].1)
    } else {
        spec_lookup(t.drop_first(), key)
    }
}

/// Looks `key` up in a list of pairs; the first match wins.
pub fn lookup(table: &Vec<(&'static str, &'static str)>, key: &str) -> (r: Option<&'static str>)
    ensures
        r is None <==> spec_lookup(pairs_view(table@), key@) is None,
        r matches Some(v) ==> spec_lookup(pairs_view(table@), key@) == Some(v@),
{
    let ghost t = pairs_view(table@);
    let mut i: usize = 0;
    assert(t.skip(0) =~= t);
    while i < table.len()
        invariant
            t == pairs_view(table@),
            i <= table@.len(),
            spec_lookup(t, key@) == spec_lookup(t.skip(i as int), key@),
        decreases table.len() - i,
    {
        let (k, v) = table[i];
        assert(t.skip(i as int)[0] == (k@, v@));
        if str_eq(k, key) {
            return Some(v);
        }
        assert(t.skip(i as int).drop_first() =~= t.skip(i + 1));
        i = i + 1;
    }
    assert(t.skip(i as int) =~= Seq::<(Seq<char>, Seq<char>)>::empty());
    None
}

/// Whether `key` is one of the names.
pub fn contains_name(names: &Vec<&'static str>, key: &str) -> (r: bool)
    ensures
        r == names_view(names@).contains(key@),
{
    let ghost t = names_view(names@);
    let mut i: usize = 0;
    while i < names.len()
        invariant
            t == names_view(names@),
            i <= names@.len(),
            forall|j: int| 0 <= j < i ==> t[j] != key@,
        decreases names.len() - i,
    {
        if str_eq(names[i], key) {
            assert(t[i as int] == key@);
            return true;
        }
        i = i + 1;
    }
    false
}

/// The first position of `key` among the names, if it is one of them.
pub fn position_of(names: &Vec<&'static str>, key: &str) -> (r: Option<usize>)
    ensures
        match r {
            Some(i) => i < names@.len() && names_view(names@)[i as int] == key@
                && forall|j: int| 0 <= j < i ==> names_view(names@)[j] != key@,
            None => !names_view(names@).contains(key@),
        },
{
    let ghost t = names_view(names@);
    let mut i: usize = 0;
    while i < names.len()
        invariant
            t == names_view(names@),
            i <= names@.len(),
            forall|j: int| 0 <= j < i ==> t[j] != key@,
        decreases names.len() - i,
    {
        if str_eq(names[i], key) {
            return Some(i);
        }
        i = i + 1;
    }
    None
}

pub open spec fn spec_single_char_big_ops() -> Seq<(Seq<char>, Seq<char>)> {
    seq![
        ("\u{220F}"@, "\\prod"@), ("\u{2210}"@, "\\coprod"@), ("\u{2211}"@, "\\sum"@),
        ("\u{22c0}"@, "\\bigwedge"@), ("\u{22c1}"@, "\\bigvee"@), ("\u{22c2}"@, "\\bigcap"@),
        ("\u{22c3}"@, "\\bigcup"@), ("\u{2a00}"@, "\\bigodot"@), ("\u{2a01}"@, "\\bigoplus"@),
        ("\u{2a02}"@, "\\bigotimes"@), ("\u{2a04}"@, "\\biguplus"@), ("\u{2a06}"@, "\\bigsqcup"@)
    ]
}

/// Single-character big operators and the commands they stand for.
pub fn single_char_big_ops() -> (v: Vec<(&'static str, &'static str)>)
    ensures
        pairs_view(v@) == spec_single_char_big_ops(),
{
    let v = vec![
        ("\u{220F}", "\\prod"), ("\u{2210}", "\\coprod"), ("\u{2211}", "\\sum"),
        ("\u{22c0}", "\\bigwedge"), ("\u{22c1}", "\\bigvee"), ("\u{22c2}", "\\bigcap"),
        ("\u{22c3}", "\\bigcup"), ("\u{2a00}", "\\bigodot"), ("\u{2a01}", "\\bigoplus"),
        ("\u{2a02}", "\\bigotimes"), ("\u{2a04}", "\\biguplus"), ("\u{2a06}", "\\bigsqcup")
    ];
    assert(pairs_view(v@) =~= spec_single_char_big_ops());
    v
}

pub open spec fn spec_single_char_integrals() -> Seq<(Seq<char>, Seq<char>)> {
    seq![
        ("\u{222b}"@, "\\int"@), ("\u{222c}"@, "\\iint"@), ("\u{222d}"@, "\\iiint"@),
        ("\u{222e}"@, "\\oint"@), ("\u{222f}"@, "\\oiint"@), ("\u{2230}"@, "\\oiiint"@)
    ]
}

/// Single-character integrals and the commands they stand for.
pub fn single_char_integrals() -> (v: Vec<(&'static str, &'static str)>)
    ensures
        pairs_view(v@) == spec_single_char_integrals(),
{
    let v = vec![
        ("\u{222b}", "\\int"), ("\u{222c}", "\\iint"), ("\u{222d}", "\\iiint"),
        ("\u{222e}", "\\oint"), ("\u{222f}", "\\oiint"), ("\u{2230}", "\\oiiint")
    ];
    assert(pairs_view(v@) =~= spec_single_char_integrals());
    v
}

pub open spec fn spec_font_aliases() -> Seq<(Seq<char>, Seq<char>)> {
    seq![
        ("\\Bbb"@, "\\mathbb"@), ("\\bold"@, "\\mathbf"@), ("\\frak"@, "\\mathfrak"@),
        ("\\bm"@, "\\boldsymbol"@)
    ]
}

/// Old font command names and the commands they stand for.
pub fn font_aliases() -> (v: Vec<(&'static str, &'static str)>)
    ensures
        pairs_view(v@) == spec_font_aliases(),
{
    let v = vec![
        ("\\Bbb", "\\mathbb"), ("\\bold", "\\mathbf"), ("\\frak", "\\mathfrak"),
        ("\\bm", "\\boldsymbol")
    ];
    assert(pairs_view(v@) =~= spec_font_aliases());
    v
}

/// The delimiters that `\left`, `\right`, `\middle` and the sizing
/// commands accept.
pub open spec fn spec_delimiters() -> Seq<Seq<char>> {
    seq![
        "("@, "\\lparen"@, ")"@, "\\rparen"@, "["@, "\\lbrack"@, "]"@, "\\rbrack"@,
        "\\{"@, "\\lbrace"@, "\\}"@, "\\rbrace"@, "\\lfloor"@, "\\rfloor"@,
        "\u{230a}"@, "\u{230b}"@, "\\lceil"@, "\\rceil"@, "\u{2308}"@, "\u{2309}"@,
        "<"@, ">"@, "\\langle"@, "\u{27e8}"@, "\\rangle"@, "\u{27e9}"@, "\\lt"@, "\\gt"@,
        "\\lvert"@, "\\rvert"@, "\\lVert"@, "\\rVert"@, "\\lgroup"@, "\\rgroup"@,
        "\u{27ee}"@, "\u{27ef}"@, "\\lmoustache"@, "\\rmoustache"@, "\u{23b0}"@, "\u{23b1}"@,
        "/"@, "\\backslash"@, "|"@, "\\vert"@, "\\|"@, "\\Vert"@, "\\uparrow"@,
        "\\Uparrow"@, "\\downarrow"@, "\\Downarrow"@, "\\updownarrow"@, "\\Updownarrow"@,
        "."@
    ]
}

/// The delimiters, as a table.
pub fn delimiters() -> (v: Vec<&'static str>)
    ensures
        names_view(v@) == spec_delimiters(),
{
    let v = vec![
        "(", "\\lparen", ")", "\\rparen", "[", "\\lbrack", "]", "\\rbrack",
        "\\{", "\\lbrace", "\\}", "\\rbrace", "\\lfloor", "\\rfloor",
        "\u{230a}", "\u{230b}", "\\lceil", "\\rceil", "\u{2308}", "\u{2309}",
        "<", ">", "\\langle", "\u{27e8}", "\\rangle", "\u{27e9}", "\\lt", "\\gt",
        "\\lvert", "\\rvert", "\\lVert", "\\rVert", "\\lgroup", "\\rgroup",
        "\u{27ee}", "\u{27ef}", "\\lmoustache", "\\rmoustache", "\u{23b0}", "\u{23b1}",
        "/", "\\backslash", "|", "\\vert", "\\|", "\\Vert", "\\uparrow",
        "\\Uparrow", "\\downarrow", "\\Downarrow", "\\updownarrow", "\\Updownarrow",
        "."
    ];
    assert(names_view(v@) =~= spec_delimiters());
    v
}

/// Delimiter-sizing commands with the class and size they give. The class
/// is `mopen`, `mclose` or `mrel` for `\bigl`, `\biggl`, `\Biggl`,
/// `\biggr`, `\Biggr`, `\biggm` and `\Biggm`, and the text `(.*)` for the
/// other nine commands.
pub open spec fn spec_delimiter_sizes() -> Seq<(Seq<char>, Seq<char>, usize)> {
    seq![
        ("\\bigl"@, "mopen"@, 1usize), ("\\Bigl"@, "(.*)"@, 2usize),
        ("\\biggl"@, "mopen"@, 3usize), ("\\Biggl"@, "mopen"@, 4usize),
        ("\\bigr"@, "(.*)"@, 1usize), ("\\Bigr"@, "(.*)"@, 2usize),
        ("\\biggr"@, "mclose"@, 3usize), ("\\Biggr"@, "mclose"@, 4usize),
        ("\\bigm"@, "(.*)"@, 1usize), ("\\Bigm"@, "(.*)"@, 2usize),
        ("\\biggm"@, "mrel"@, 3usize), ("\\Biggm"@, "mrel"@, 4usize),
        ("\\big"@, "(.*)"@, 1usize), ("\\Big"@, "(.*)"@, 2usize),
        ("\\bigg"@, "(.*)"@, 3usize), ("\\Bigg"@, "(.*)"@, 4usize)
    ]
}

pub open spec fn sizes_view(v: Seq<(&'static str, &'static str, usize)>) -> Seq<(Seq<char>, Seq<char>, usize)> {
    v.map_values(|p: (&'static str, &'static str, usize)| (p.0@, p.1@, p.2))
}

/// The entry of the first command named `key`, if any.
pub open spec fn spec_lookup_size(t: Seq<(Seq<char>, Seq<char>, usize)>, key: Seq<char>) -> Option<(Seq<char>, usize)>
    decreases t.len(),
{
    if t.len() == 0 {
        None
    } else if t[0].0 == key {
        Some((t[0].1, t[0].2))
    } else {
        spec_lookup_size(t.drop_first(), key)
    }
}

pub fn delimiter_sizes() -> (v: Vec<(&'static str, &'static str, usize)>)
    ensures
        sizes_view(v@) == spec_delimiter_sizes(),
{
    let v = vec![
        ("\\bigl", "mopen", 1usize), ("\\Bigl", "(.*)", 2usize),
        ("\\biggl", "mopen", 3usize), ("\\Biggl", "mopen", 4usize),
        ("\\bigr", "(.*)", 1usize), ("\\Bigr", "(.*)", 2usize),
        ("\\biggr", "mclose", 3usize), ("\\Biggr", "mclose", 4usize),
        ("\\bigm", "(.*)", 1usize), ("\\Bigm", "(.*)", 2usize),
        ("\\biggm", "mrel", 3usize), ("\\Biggm", "mrel", 4usize),
        ("\\big", "(.*)", 1usize), ("\\Big", "(.*)", 2usize),
        ("\\bigg", "(.*)", 3usize), ("\\Bigg", "(.*)", 4usize)
    ];
    assert(sizes_view(v@) =~= spec_delimiter_sizes());
    v
}

/// Looks a delimiter-sizing command up; the first match wins.
pub fn lookup_size(table: &Vec<(&'static str, &'static str, usize)>, key: &str) -> (r: Option<(&'static str, usize)>)
    ensures
        r is None <==> spec_lookup_size(sizes_view(table@), key@) is None,
        r matches Some(v) ==> spec_lookup_size(sizes_view(table@), key@) == Some((v.0@, v.1)),
{
    let ghost t = sizes_view(table@);
    let mut i: usize = 0;
    assert(t.skip(0) =~= t);
    while i < table.len()
        invariant
            t == sizes_view(table@),
            i <= table@.len(),
            spec_lookup_size(t, key@) == spec_lookup_size(t.skip(i as int), key@),
        decreases table.len() - i,
    {
        let (k, c, s) = table[i];
        assert(t.skip(i as int)[0] == (k@, c@, s));
        if str_eq(k, key) {
            return Some((c, s));
        }
        assert(t.skip(i as int).drop_first() =~= t.skip(i + 1));
        i = i + 1;
    }
    assert(t.skip(i as int) =~= Seq::<(Seq<char>, Seq<char>, usize)>::empty());
    None
}


/// The size a delimiter-sizing command names: `\big...` is 1, and a capital
/// `B` adds one and a doubled `g` two (`\Big...` 2, `\bigg...` 3,
/// `\Bigg...` 4).
pub open spec fn named_size(f: Seq<char>) -> usize {
    ((if f.len() > 1 && f[1] == 'B' { 2int } else { 1int })
        + (if f.len() > 4 && f[4] == 'g' { 2int } else { 0int })) as usize
}

/// The class a delimiter-sizing command's last letter names: `l` opens,
/// `r` closes, `m` is a relation.
pub open spec fn named_class(f: Seq<char>) -> Seq<char> {
    if f.len() > 0 && f.last() == 'l' { "mopen"@ }
    else if f.len() > 0 && f.last() == 'r' { "mclose"@ }
    else if f.len() > 0 && f.last() == 'm' { "mrel"@ }
    else { "(.*)"@ }
}

pub open spec fn size_entry_ok(e: (Seq<char>, Seq<char>, usize)) -> bool {
    &&& e.2 == named_size(e.0)
    &&& (e.1 == named_class(e.0) || e.1 == "(.*)"@)
}

proof fn lemma_size_entries_ok()
    ensures
        forall|k: int| 0 <= k < spec_delimiter_sizes().len() ==> #[trigger] size_entry_ok(spec_delimiter_sizes()[k]),
{
    reveal_strlit("\\bigl");
    reveal_strlit("\\Bigl");
    reveal_strlit("\\biggl");
    reveal_strlit("\\Biggl");
    reveal_strlit("\\bigr");
    reveal_strlit("\\Bigr");
    reveal_strlit("\\biggr");
    reveal_strlit("\\Biggr");
    reveal_strlit("\\bigm");
    reveal_strlit("\\Bigm");
    reveal_strlit("\\biggm");
    reveal_strlit("\\Biggm");
    reveal_strlit("\\big");
    reveal_strlit("\\Big");
    reveal_strlit("\\bigg");
    reveal_strlit("\\Bigg");
    reveal_strlit("mopen");
    reveal_strlit("mclose");
    reveal_strlit("mrel");
    reveal_strlit("(.*)");
    let t = spec_delimiter_sizes();
    assert forall|k: int| 0 <= k < t.len() implies #[trigger] size_entry_ok(t[k]) by {
        assert(size_entry_ok(t[0]) && size_entry_ok(t[1]) && size_entry_ok(t[2]) && size_entry_ok(t[3]));
        assert(size_entry_ok(t[4]) && size_entry_ok(t[5]) && size_entry_ok(t[6]) && size_entry_ok(t[7]));
        assert(size_entry_ok(t[8]) && size_entry_ok(t[9]) && size_entry_ok(t[10]) && size_entry_ok(t[11]));
        assert(size_entry_ok(t[12]) && size_entry_ok(t[13]) && size_entry_ok(t[14]) && size_entry_ok(t[15]));
    }
}

proof fn lemma_lookup_size_found(t: Seq<(Seq<char>, Seq<char>, usize)>, key: Seq<char>, c: Seq<char>, n: usize)
    requires
        spec_lookup_size(t, key) == Some((c, n)),
    ensures
        exists|k: int| 0 <= k < t.len() && #[trigger] t[k] == (key, c, n),
    decreases t.len(),
{
    if t[0].0 == key {
        assert(t[0] == (key, c, n));
    } else {
        lemma_lookup_size_found(t.drop_first(), key, c, n);
        let k = choose|k: int| 0 <= k < t.drop_first().len() && #[trigger] t.drop_first()[k] == (key, c, n);
        assert(t[k + 1] == t.drop_first()[k]);
    }
}

/// A delimiter-sizing command gives the size its name says (`\big...` 1,
/// `\Big...` 2, `\bigg...` 3, `\Bigg...` 4), and a class, where it gives
/// one, that its last letter says (`l` opening, `r` closing, `m` relation).
pub proof fn law_delimiter_sizes_follow_their_names(f: Seq<char>)
    ensures
        spec_lookup_size(spec_delimiter_sizes(), f) matches Some((c, n)) ==>
            n == named_size(f) && (c == named_class(f) || c == "(.*)"@),
{
    if let Some((c, n)) = spec_lookup_size(spec_delimiter_sizes(), f) {
        lemma_size_entries_ok();
        lemma_lookup_size_found(spec_delimiter_sizes(), f, c, n);
        let t = spec_delimiter_sizes();
        let k = choose|k: int| 0 <= k < t.len() && #[trigger] t[k] == (f, c, n);
        assert(size_entry_ok(t[k]));
    }
}

} // verus!
