//! Small helpers on text: whitespace, tokens, joining of paths and lines.

use vstd::prelude::*;

verus! {

/// The view of every string of a sequence.
pub open spec fn texts(v: Seq<String>) -> Seq<Seq<char>> {
    Seq::new(v.len(), |i: int| v[i]@)
}

/// Whether `c` is white space: the code points with the Unicode property
/// `White_Space`.
pub open spec fn is_space(c: char) -> bool {
    let n = c as u32;
    ||| 0x09 <= n <= 0x0d
    ||| n == 0x20
    ||| n == 0x85
    ||| n == 0xa0
    ||| n == 0x1680
    ||| 0x2000 <= n <= 0x200a
    ||| n == 0x2028
    ||| n == 0x2029
    ||| n == 0x202f
    ||| n == 0x205f
    ||| n == 0x3000
}

/// Tests a character for white space.
pub fn char_is_space(c: char) -> (r: bool)
    ensures
        r == is_space(c),
{
    let n: u32 = c as u32;
    (0x09 <= n && n <= 0x0d) || n == 0x20 || n == 0x85 || n == 0xa0 || n == 0x1680 || (0x2000 <= n
        && n <= 0x200a) || n == 0x2028 || n == 0x2029 || n == 0x202f || n == 0x205f || n == 0x3000
}

/// The least index at or after `from` that holds white space, or the length
/// of `s` if there is none.
pub open spec fn space_from(s: Seq<char>, from: int) -> int
    decreases s.len() - from,
{
    if from < 0 || from >= s.len() {
        s.len() as int
    } else if is_space(s[from]) {
        from
    } else {
        space_from(s, from + 1)
    }
}

/// The least index at or after `from` that holds no white space, or the
/// length of `s` if there is none.
pub open spec fn word_from(s: Seq<char>, from: int) -> int
    decreases s.len() - from,
{
    if from < 0 || from >= s.len() {
        s.len() as int
    } else if !is_space(s[from]) {
        from
    } else {
        word_from(s, from + 1)
    }
}

/// Index of the first white space at or after `from`.
pub fn find_space(s: &str, from: usize) -> (r: usize)
    requires
        from <= s@.len(),
    ensures
        r == space_from(s@, from as int),
        from <= r <= s@.len(),
{
    let n: usize = s.unicode_len();
    let mut i: usize = from;
    while i < n
        invariant
            n == s@.len(),
            from <= i <= n,
            space_from(s@, from as int) == space_from(s@, i as int),
        decreases n - i,
    {
        if char_is_space(s.get_char(i)) {
            return i;
        }
        i = i + 1;
    }
    i
}

/// Index of the first character at or after `from` that is no white space.
pub fn find_word(s: &str, from: usize) -> (r: usize)
    requires
        from <= s@.len(),
    ensures
        r == word_from(s@, from as int),
        from <= r <= s@.len(),
{
    let n: usize = s.unicode_len();
    let mut i: usize = from;
    while i < n
        invariant
            n == s@.len(),
            from <= i <= n,
            word_from(s@, from as int) == word_from(s@, i as int),
        decreases n - i,
    {
        if !char_is_space(s.get_char(i)) {
            return i;
        }
        i = i + 1;
    }
    i
}

/// Whether two texts hold the same characters.
pub fn same_text(a: &str, b: &str) -> (r: bool)
    ensures
        r == (a@ == b@),
{
    a.to_owned() == b.to_owned()
}

/// The first run of characters of `s` that holds no white space; empty where
/// `s` holds nothing else.
pub open spec fn first_token(s: Seq<char>) -> Seq<char> {
    let start = word_from(s, 0);
    s.subrange(start, space_from(s, start))
}

/// The first white-space separated token of `s`.
pub fn leading_token(s: &str) -> (r: String)
    ensures
        r@ == first_token(s@),
{
    let start: usize = find_word(s, 0);
    let end: usize = find_space(s, start);
    s.substring_char(start, end).to_owned()
}

/// `base` with the relative path `rel` below it. An absolute `rel` stands
/// for itself; a separator is put between the two unless `base` is empty or
/// ends with one.
pub open spec fn join_path(base: Seq<char>, rel: Seq<char>) -> Seq<char> {
    if rel.len() > 0 && rel[0] == '/' {
        rel
    } else if base.len() == 0 || base[base.len() - 1] == '/' {
        base + rel
    } else {
        base + "/"@ + rel
    }
}

/// The path `rel` below the directory `base`.
pub fn path_join(base: &str, rel: &str) -> (r: String)
    ensures
        r@ == join_path(base@, rel@),
{
    let base_len: usize = base.unicode_len();
    let rel_len: usize = rel.unicode_len();
    if rel_len > 0 && rel.get_char(0) == '/' {
        return rel.to_owned();
    }
    let mut out = base.to_owned();
    if base_len > 0 && base.get_char(base_len - 1) != '/' {
        out.append("/");
    }
    out.append(rel);
    out
}

/// The texts of `parts` with `sep` between each two of them.
pub open spec fn join_texts(parts: Seq<Seq<char>>, sep: Seq<char>) -> Seq<char>
    decreases parts.len(),
{
    if parts.len() == 0 {
        Seq::empty()
    } else if parts.len() == 1 {
        parts[0]
    } else {
        join_texts(parts.drop_last(), sep) + sep + parts.last()
    }
}

/// The strings of `parts` with `sep` between each two of them.
pub fn join_strings(parts: &Vec<String>, sep: &str) -> (r: String)
    ensures
        r@ == join_texts(texts(parts@), sep@),
{
    let ghost all = texts(parts@);
    let mut out = String::new();
    let mut i: usize = 0;
    while i < parts.len()
        invariant
            all == texts(parts@),
            i <= parts.len(),
            out@ == join_texts(all.take(i as int), sep@),
        decreases parts.len() - i,
    {
        if i > 0 {
            out.append(sep);
        }
        out.append(parts[i].as_str());
        proof {
            let next = all.take(i + 1);
            assert(next.drop_last() =~= all.take(i as int));
            assert(next.last() == parts@[i as int]@);
            if i == 0 {
                assert(out@ =~= next[0]);
            }
        }
        i = i + 1;
    }
    assert(all.take(parts.len() as int) =~= all);
    out
}

} // verus!
