//! Unix-style paths as character sequences, and the texts built from them.
use vstd::prelude::*;

verus! {

broadcast use vstd::string::group_string_axioms;

/// Splits `p` from index `i` on, with `cur` the component being read and
/// `acc` the components already complete; empty components are dropped.
pub open spec fn scan(p: Seq<char>, i: int, cur: Seq<char>, acc: Seq<Seq<char>>) -> Seq<Seq<char>>
    decreases p.len() - i,
{
    if i >= p.len() || i < 0 {
        if cur.len() > 0 {
            acc.push(cur)
        } else {
            acc
        }
    } else if p[i] == '/' {
        scan(p, i + 1, Seq::empty(), if cur.len() > 0 {
            acc.push(cur)
        } else {
            acc
        })
    } else {
        scan(p, i + 1, cur.push(p[i]), acc)
    }
}

/// The non-empty components of a slash-separated path, in order.
pub open spec fn components(p: Seq<char>) -> Seq<Seq<char>> {
    scan(p, 0, Seq::empty(), Seq::empty())
}

/// The characters of a string slice.
pub fn chars_of(s: &str) -> (r: Vec<char>)
    ensures
        r@ == s@,
{
    let mut it = s.chars();
    let mut out: Vec<char> = Vec::new();
    loop
        invariant
            out@ + vstd::std_specs::iter::IteratorSpec::remaining(&it) == s@,
            vstd::std_specs::iter::IteratorSpec::decrease(&it) is Some,
        ensures
            out@ == s@,
        decreases vstd::std_specs::iter::IteratorSpec::decrease(&it)->0,
    {
        match it.next() {
            Some(c) => {
                out.push(c);
            },
            None => {
                proof {
                    assert(vstd::std_specs::iter::IteratorSpec::remaining(&it).len() == 0);
                    assert(out@ + vstd::std_specs::iter::IteratorSpec::remaining(&it) =~= out@);
                }
                break;
            },
        }
    }
    out
}

/// Whether two character sequences are equal.
pub fn chars_eq(a: &[char], b: &[char]) -> (r: bool)
    ensures
        r == (a@ == b@),
{
    if a.len() != b.len() {
        return false;
    }
    let mut i: usize = 0;
    while i < a.len()
        invariant
            a@.len() == b@.len(),
            i <= a@.len(),
            forall|j: int| 0 <= j < i ==> a@[j] == b@[j],
        decreases a@.len() - i,
    {
        if a[i] != b[i] {
            return false;
        }
        i = i + 1;
    }
    assert(a@ =~= b@);
    true
}

/// The non-empty components of `path`, split on `/`.
pub fn path_components(path: &[char]) -> (r: Vec<Vec<char>>)
    ensures
        char_views(r@) == components(path@),
{
    let mut acc: Vec<Vec<char>> = Vec::new();
    let mut cur: Vec<char> = Vec::new();
    let mut i: usize = 0;
    assert(char_views(acc@) =~= Seq::<Seq<char>>::empty());
    assert(cur@ =~= Seq::<char>::empty());
    while i < path.len()
        invariant
            i <= path@.len(),
            scan(path@, i as int, cur@, char_views(acc@)) == components(path@),
        decreases path@.len() - i,
    {
        let ch = path[i];
        let ghost views_before = char_views(acc@);
        let ghost cur_before = cur@;
        if ch == '/' {
            if cur.len() > 0 {
                let done = cur;
                acc.push(done);
                cur = Vec::new();
                proof {
                    assert(char_views(acc@) =~= views_before.push(done@));
                }
            }
            proof {
                assert(cur@ =~= Seq::<char>::empty());
            }
        } else {
            cur.push(ch);
            assert(char_views(acc@) == views_before);
        }
        assert(scan(path@, i as int, cur_before, views_before) == scan(path@, i + 1, cur@, char_views(acc@)));
        i = i + 1;
    }
    let ghost views_before = char_views(acc@);
    let ghost last = cur@;
    if cur.len() > 0 {
        acc.push(cur);
        proof {
            assert(char_views(acc@) =~= views_before.push(last));
        }
    }
    acc
}

/// The character sequences that a list of vectors holds.
pub open spec fn char_views(s: Seq<Vec<char>>) -> Seq<Seq<char>> {
    s.map_values(|c: Vec<char>| c@)
}

/// Relies on `String`'s `FromIterator<char>`: the characters in order.
#[verifier::external_body]
pub(crate) fn text_of(chars: &[char]) -> (r: String)
    ensures
        r@ == chars@,
{
    chars.iter().collect()
}

/// Relies on `format!`: the two texts one after the other.
#[verifier::external_body]
pub(crate) fn join_text(a: &str, b: &str) -> (r: String)
    ensures
        r@ == a@ + b@,
{
    format!("{}{}", a, b)
}

} // verus!
