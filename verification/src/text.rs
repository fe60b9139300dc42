use vstd::prelude::*;

verus! {

/// The character views of a sequence of strings.
pub open spec fn strings_view(v: Seq<String>) -> Seq<Seq<char>> {
    v.map_values(|s: String| s@)
}

/// The character view of an optional string.
pub open spec fn opt_string_view(o: Option<String>) -> Option<Seq<char>> {
    match o {
        Some(s) => Some(s@),
        None => None,
    }
}

/// A copy of a list of strings.
pub fn clone_strings(v: &Vec<String>) -> (copy: Vec<String>)
    ensures
        strings_view(copy@) == strings_view(v@),
{
    let mut copy: Vec<String> = Vec::new();
    let mut i: usize = 0;
    while i < v.len()
        invariant
            i <= v.len(),
            strings_view(copy@) == strings_view(v@.take(i as int)),
        decreases v.len() - i,
    {
        let ghost before = copy@;
        copy.push(v[i].clone());
        assert(v@.take(i + 1) == v@.take(i as int).push(v@[i as int]));
        assert(strings_view(copy@) =~= strings_view(before).push(v@[i as int]@));
        i = i + 1;
    }
    assert(v@.take(v.len() as int) =~= v@);
    copy
}

/// A copy of an optional string.
pub fn clone_opt_string(o: &Option<String>) -> (copy: Option<String>)
    ensures
        opt_string_view(copy) == opt_string_view(*o),
{
    match o {
        Some(s) => Some(s.clone()),
        None => None,
    }
}

/// `needle` occurs in `hay` as a run of consecutive characters.
pub open spec fn has_substring(hay: Seq<char>, needle: Seq<char>) -> bool {
    exists|i: int| 0 <= i <= hay.len() - needle.len() && #[trigger] hay.subrange(i, i + needle.len()) == needle
}

/// The characters of a string slice, in order.
pub fn chars_of(s: &str) -> (chars: Vec<char>)
    ensures
        chars@ == s@,
{
    let mut chars: Vec<char> = Vec::new();
    for c in it: s.chars()
        invariant
            chars@ == it.seq().take(it.index() as int),
    {
        chars.push(c);
    }
    chars
}

/// Whether `needle` starts at position `at` of `hay`.
fn matches_at(hay: &Vec<char>, needle: &Vec<char>, at: usize) -> (found: bool)
    requires
        at + needle@.len() <= hay@.len(),
        hay@.len() <= usize::MAX,
    ensures
        found == (hay@.subrange(at as int, at + needle@.len()) == needle@),
{
    let mut k: usize = 0;
    while k < needle.len()
        invariant
            at + needle@.len() <= hay@.len(),
            hay@.len() <= usize::MAX,
            k <= needle@.len(),
            forall|j: int| 0 <= j < k ==> hay@[at + j] == needle@[j],
        decreases needle@.len() - k,
    {
        if hay[at + k] != needle[k] {
            assert(hay@.subrange(at as int, at + needle@.len())[k as int] != needle@[k as int]);
            return false;
        }
        k = k + 1;
    }
    assert(hay@.subrange(at as int, at + needle@.len()) =~= needle@);
    true
}

/// Whether `needle` occurs in `hay`.
pub fn contains(hay: &str, needle: &str) -> (found: bool)
    ensures
        found == has_substring(hay@, needle@),
{
    let h = chars_of(hay);
    let n = chars_of(needle);
    if n.len() > h.len() {
        return false;
    }
    let last = h.len() - n.len();
    let mut at: usize = 0;
    loop
        invariant
            h@ == hay@,
            n@ == needle@,
            h@.len() <= usize::MAX,
            last == h@.len() - n@.len(),
            at <= last,
            forall|i: int| 0 <= i < at ==> #[trigger] hay@.subrange(i, i + needle@.len()) != needle@,
        decreases last - at,
    {
        if matches_at(&h, &n, at) {
            return true;
        }
        if at == last {
            return false;
        }
        at = at + 1;
    }
}

/// A text holds every piece it is made of, and no text holds a piece longer than itself.
pub proof fn law_substring_of_concatenation(before: Seq<char>, piece: Seq<char>, after: Seq<char>)
    ensures
        has_substring(before + piece + after, piece),
        piece.len() > before.len() ==> !has_substring(before, piece),
{
    let whole = before + piece + after;
    assert(whole.subrange(before.len() as int, before.len() + piece.len() as int) =~= piece);
}

} // verus!
