//! Names derived from a configuration repository: the directory its clone
//! is kept in, and the remote branch that a selection names.
use vstd::prelude::*;
use vstd::std_specs::iter::IteratorSpec;

verus! {

broadcast use vstd::string::group_string_axioms;

/// The characters of `s`, in order.
pub fn chars_of(s: &str) -> (r: Vec<char>)
    ensures
        r@ == s@,
{
    let mut it = s.chars();
    let mut r: Vec<char> = Vec::new();
    loop
        invariant
            it.obeys_prophetic_iter_laws(),
            it.decrease() is Some,
            r@ + it.remaining() == s@,
        decreases it.decrease()->0,
    {
        let ghost before = it.remaining();
        match it.next() {
            Some(c) => {
                r.push(c);
                assert(r@ + it.remaining() == s@) by {
                    assert(before == seq![c] + it.remaining());
                    assert(r@ + it.remaining() =~= (r@.drop_last() + seq![c]) + it.remaining());
                }
            },
            None => {
                assert(r@ + Seq::<char>::empty() == r@);
                return r;
            },
        }
    }
}

/// Relies on std's `String::from_iter` over characters: the string holds
/// exactly those characters, in order.
#[verifier::external_body]
fn string_from_chars(chars: Vec<char>) -> (r: String)
    ensures
        r@ == chars@,
{
    String::from_iter(chars)
}

/// The position just after the last `/` among the first `n` characters of
/// `u`, or 0 if there is none.
pub open spec fn after_last_slash(u: Seq<char>, n: int) -> int
    decreases n,
{
    if n <= 0 {
        0
    } else if u[n - 1] == '/' {
        n
    } else {
        after_last_slash(u, n - 1)
    }
}

/// The key of a repository URL: its last two `/`-separated segments, the
/// last one first, joined by `/` and then read backwards; for
/// `https://github.com/user/repo` that is `resu/oper`. A URL without `/`
/// is one segment and is only read backwards.
pub open spec fn repo_key(u: Seq<char>) -> Seq<char> {
    let a = after_last_slash(u, u.len() as int);
    if a == 0 {
        u.reverse()
    } else {
        let b = after_last_slash(u, a - 1);
        u.subrange(b, a - 1).reverse() + seq!['/'] + u.subrange(a, u.len() as int).reverse()
    }
}

/// Appends the characters `u[from..to]` to `out`, last one first.
fn push_reversed(out: &mut Vec<char>, u: &Vec<char>, from: usize, to: usize)
    requires
        from <= to <= u@.len(),
    ensures
        final(out)@ == old(out)@ + u@.subrange(from as int, to as int).reverse(),
{
    let ghost start = old(out)@;
    let mut k: usize = to;
    while k > from
        invariant
            from <= k <= to <= u@.len(),
            out@.len() == start.len() + (to - k),
            forall|j: int| 0 <= j < start.len() ==> #[trigger] out@[j] == start[j],
            forall|j: int| start.len() <= j < out@.len() ==> #[trigger] out@[j] == u@[to - 1 - (j - start.len())],
        decreases k,
    {
        k = k - 1;
        out.push(u[k]);
    }
    proof {
        let sub = u@.subrange(from as int, to as int);
        if sub.len() == 0 {
            assert(sub.reverse() == Seq::<char>::empty());
            assert(out@ =~= start + sub.reverse());
        } else {
            assert forall|j: int| 0 <= j < sub.len() implies #[trigger] sub.reverse()[j] == u@[to - 1 - j] by {}
            assert(out@ =~= start + sub.reverse());
        }
    }
}

proof fn lemma_after_last_slash_range(u: Seq<char>, n: int)
    requires
        0 <= n <= u.len(),
    ensures
        0 <= after_last_slash(u, n) <= n,
        after_last_slash(u, n) > 0 ==> u[after_last_slash(u, n) - 1] == '/',
    decreases n,
{
    if n > 0 && u[n - 1] != '/' {
        lemma_after_last_slash_range(u, n - 1);
    }
}

fn find_after_last_slash(u: &Vec<char>, n: usize) -> (r: usize)
    requires
        n <= u@.len(),
    ensures
        r == after_last_slash(u@, n as int),
{
    let mut k: usize = n;
    while k > 0 && u[k - 1] != '/'
        invariant
            k <= n <= u@.len(),
            after_last_slash(u@, k as int) == after_last_slash(u@, n as int),
        decreases k,
    {
        k = k - 1;
    }
    k
}

/// The name of the directory that holds the clone of the repository at
/// `url`.
pub fn extract_repo_name(url: &str) -> (r: String)
    ensures
        r@ == repo_key(url@),
{
    let u = chars_of(url);
    let a = find_after_last_slash(&u, u.len());
    proof {
        lemma_after_last_slash_range(u@, u@.len() as int);
    }
    let mut out: Vec<char> = Vec::new();
    if a == 0 {
        push_reversed(&mut out, &u, 0, u.len());
        assert(u@.subrange(0, u@.len() as int) == u@);
        assert(out@ =~= u@.reverse());
    } else {
        let b = find_after_last_slash(&u, a - 1);
        proof {
            lemma_after_last_slash_range(u@, a - 1);
        }
        push_reversed(&mut out, &u, b, a - 1);
        out.push('/');
        push_reversed(&mut out, &u, a, u.len());
        assert(out@ =~= u@.subrange(b as int, a - 1).reverse() + seq!['/'] + u@.subrange(
            a as int,
            u@.len() as int,
        ).reverse());
    }
    string_from_chars(out)
}

/// The remote every branch is looked up on.
pub const REMOTE_PREFIX: &'static str = "origin/";

/// Whether one of the remote branch `names` is `branch` on the remote
/// `origin`, that is `origin/<branch>`.
pub fn has_remote_branch(names: &Vec<String>, branch: &str) -> (r: bool)
    ensures
        r == exists|k: int| 0 <= k < names@.len() && (#[trigger] names@[k])@ == REMOTE_PREFIX@ + branch@,
{
    let mut want = chars_of(REMOTE_PREFIX);
    let b = chars_of(branch);
    let ghost prefix = want@;
    let mut i: usize = 0;
    while i < b.len()
        invariant
            0 <= i <= b@.len(),
            want@ == prefix + b@.take(i as int),
        decreases b.len() - i,
    {
        want.push(b[i]);
        i = i + 1;
        assert(b@.take(i as int) == b@.take(i - 1).push(b@[i - 1]));
    }
    assert(b@.take(b@.len() as int) == b@);
    let mut k: usize = 0;
    while k < names.len()
        invariant
            0 <= k <= names@.len(),
            want@ == REMOTE_PREFIX@ + branch@,
            forall|j: int| 0 <= j < k ==> (#[trigger] names@[j])@ != want@,
        decreases names.len() - k,
    {
        let n = chars_of(names[k].as_str());
        if same_chars(&n, &want) {
            return true;
        }
        k = k + 1;
    }
    false
}

pub(crate) fn same_chars(a: &Vec<char>, b: &Vec<char>) -> (r: bool)
    ensures
        r == (a@ == b@),
{
    if a.len() != b.len() {
        return false;
    }
    let mut i: usize = 0;
    while i < a.len()
        invariant
            0 <= i <= a@.len(),
            a@.len() == b@.len(),
            forall|j: int| 0 <= j < i ==> #[trigger] a@[j] == b@[j],
        decreases a.len() - i,
    {
        if a[i] != b[i] {
            return false;
        }
        i = i + 1;
    }
    assert(a@ =~= b@);
    true
}

} // verus!
