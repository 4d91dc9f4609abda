//! Key paths as folders: the display name of a key and a few helpers on
//! strings.

use vstd::prelude::*;

verus! {

/// `k` with one trailing `/` removed, if it has one.
pub open spec fn without_trailing_slash(k: Seq<char>) -> Seq<char> {
    if k.len() > 0 && k.last() == '/' {
        k.drop_last()
    } else {
        k
    }
}

/// The index just past the last `/` of `s`, or 0 when `s` holds none.
pub open spec fn segment_start(s: Seq<char>) -> int
    decreases s.len(),
{
    if s.len() == 0 {
        0
    } else if s.last() == '/' {
        s.len() as int
    } else {
        segment_start(s.drop_last())
    }
}

/// The display name of a key or folder prefix: one trailing slash is
/// stripped, then the last path segment is taken.
pub open spec fn name_of(k: Seq<char>) -> Seq<char> {
    let b = without_trailing_slash(k);
    b.subrange(segment_start(b), b.len() as int)
}

/// The views of a sequence of strings.
pub open spec fn texts(v: Seq<String>) -> Seq<Seq<char>> {
    v.map_values(|s: String| s@)
}

/// Whether `s` contains no `/`.
pub open spec fn has_no_slash(s: Seq<char>) -> bool {
    forall|i: int| 0 <= i < s.len() ==> s[i] != '/'
}

/// What `segment_start` means: `s[..j]` is empty or ends with a slash, and
/// `s[j..]` holds none.
pub proof fn lemma_segment_start(s: Seq<char>)
    ensures
        0 <= segment_start(s) <= s.len(),
        segment_start(s) == 0 || s[segment_start(s) - 1] == '/',
        has_no_slash(s.subrange(segment_start(s), s.len() as int)),
    decreases s.len(),
{
    if s.len() > 0 && s.last() != '/' {
        lemma_segment_start(s.drop_last());
        let j = segment_start(s);
        assert forall|i: int| 0 <= i < s.len() - j implies s.subrange(j, s.len() as int)[i] != '/' by {
            if i < s.len() - 1 - j {
                assert(s.subrange(j, s.len() as int)[i] == s.drop_last().subrange(j, s.len() - 1)[i]);
            }
        }
    }
}

/// The name of a key that does not end with `/` is what follows its last
/// `/` (the whole key when it has none); the name of a prefix that ends
/// with exactly one `/` is the name of the prefix without it.
pub proof fn lemma_name_is_last_segment(k: Seq<char>)
    ensures
        k.len() == 0 || k.last() != '/' ==> {
            let j = k.len() - name_of(k).len();
            &&& 0 <= j <= k.len()
            &&& k == k.subrange(0, j) + name_of(k)
            &&& (j == 0 || k[j - 1] == '/')
            &&& has_no_slash(name_of(k))
        },
        k.len() > 0 && k.last() == '/' && !(k.len() > 1 && k[k.len() - 2] == '/') ==> name_of(k)
            == name_of(k.drop_last()),
{
    let b = without_trailing_slash(k);
    lemma_segment_start(b);
    if k.len() == 0 || k.last() != '/' {
        let j = segment_start(k);
        assert(k =~= k.subrange(0, j) + name_of(k));
    } else {
        let d = k.drop_last();
        if !(d.len() > 0 && d.last() == '/') {
            assert(without_trailing_slash(d) == d);
        }
    }
}

/// The characters of `s`, in order.
pub fn chars_of(s: &str) -> (r: Vec<char>)
    ensures
        r@ == s@,
{
    let mut r: Vec<char> = Vec::new();
    for c in it: s.chars()
        invariant
            r@ == it.seq().take(it.index() as int),
            it.seq() == s@,
    {
        r.push(c);
    }
    r
}

/// `a` followed by `b`.
pub fn joined(a: &str, b: &str) -> (r: String)
    ensures
        r@ == a@ + b@,
{
    let s = a.to_owned();
    s.concat(b)
}

/// Whether two strings hold the same characters.
pub fn same_text(a: &str, b: &str) -> (r: bool)
    ensures
        r == (a@ == b@),
{
    a.to_owned() == b.to_owned()
}

/// The display name of a key or a folder prefix: strip one trailing `/`,
/// then take the last path segment.
pub fn strip_prefix(data: &str) -> (r: String)
    ensures
        r@ == name_of(data@),
{
    let cs = chars_of(data);
    let mut end: usize = cs.len();
    if end > 0 && cs[end - 1] == '/' {
        end = end - 1;
    }
    let ghost b = cs@.subrange(0, end as int);
    assert(b =~= without_trailing_slash(data@));
    let mut start: usize = end;
    while start > 0 && cs[start - 1] != '/'
        invariant
            start <= end <= cs.len(),
            cs@ == data@,
            b == cs@.subrange(0, end as int),
            segment_start(b) == segment_start(cs@.subrange(0, start as int)),
        decreases start,
    {
        assert(cs@.subrange(0, start as int).drop_last() =~= cs@.subrange(0, start - 1));
        start = start - 1;
    }
    if start == 0 {
        assert(cs@.subrange(0, 0) =~= Seq::<char>::empty());
    }
    data.substring_char(start, end).to_owned()
}

} // verus!
