use vstd::prelude::*;

verus! {

/// An event with a topic and a generic payload.
#[derive(Debug, Clone)]
pub struct Event<T> {
    /// For example `booking:123`.
    pub topic: String,
    pub payload: T,
}

/// Whether a subscription pattern selects a topic. A pattern that ends in `*`
/// selects every topic that starts with the rest of the pattern; any other
/// pattern selects exactly the topic equal to it.
pub open spec fn pattern_matches(pattern: Seq<char>, topic: Seq<char>) -> bool {
    if pattern.len() > 0 && pattern.last() == '*' {
        pattern.drop_last().is_prefix_of(topic)
    } else {
        topic == pattern
    }
}

/// The characters of `s`, in order.
fn chars_of(s: &str) -> (v: Vec<char>)
    ensures
        v@ == s@,
{
    broadcast use vstd::string::group_string_axioms;
    let mut v: Vec<char> = Vec::new();
    for c in it: s.chars()
        invariant
            v@ == it.history(),
    {
        v.push(c);
    }
    v
}

/// Whether the first `k` characters of `p` are a prefix of `t`.
fn has_prefix(p: &Vec<char>, k: usize, t: &Vec<char>) -> (r: bool)
    requires
        k <= p.len(),
    ensures
        r == p@.take(k as int).is_prefix_of(t@),
{
    if k > t.len() {
        return false;
    }
    let mut i: usize = 0;
    while i < k
        invariant
            k <= p.len(),
            k <= t.len(),
            i <= k,
            forall|j: int| 0 <= j < i ==> p@[j] == t@[j],
        decreases k - i,
    {
        if p[i] != t[i] {
            assert(p@.take(k as int)[i as int] != t@.subrange(0, k as int)[i as int]);
            return false;
        }
        i = i + 1;
    }
    assert(p@.take(k as int) =~= t@.subrange(0, k as int));
    true
}

/// Simple wildcard matching: if `pattern` ends with `*`, a prefix match on the
/// rest of the pattern; otherwise string equality.
pub fn topic_matches(pattern: &str, topic: &str) -> (m: bool)
    ensures
        m == pattern_matches(pattern@, topic@),
{
    let p = chars_of(pattern);
    let t = chars_of(topic);
    let n = p.len();
    if n > 0 && p[n - 1] == '*' {
        assert(p@.take(n - 1) =~= pattern@.drop_last());
        has_prefix(&p, n - 1, &t)
    } else {
        let r = n == t.len() && has_prefix(&p, n, &t);
        proof {
            assert(p@.take(n as int) =~= p@);
            if r {
                assert(topic@ =~= pattern@);
            }
        }
        r
    }
}

} // verus!
