//! Paths of files that lie side by side, on the text of the path.

use vstd::prelude::*;

verus! {

/// The path without slashes at its end, nor single points between or behind slashes there; the root
/// stays.
pub open spec fn without_tail(p: Seq<char>, n: nat) -> Seq<char>
    decreases n,
{
    if n >= 2 && p[n - 1] == '/' {
        without_tail(p, (n - 1) as nat)
    } else if n >= 2 && p[n - 1] == '.' && p[n - 2] == '/' {
        without_tail(p, (n - 1) as nat)
    } else {
        p.take(n as int)
    }
}

/// The place of the last slash before `n`.
pub open spec fn last_slash(p: Seq<char>, n: nat) -> Option<int>
    decreases n,
{
    if n == 0 {
        None
    } else if p[n - 1] == '/' {
        Some(n - 1)
    } else {
        last_slash(p, (n - 1) as nat)
    }
}

/// The directory that a path names a file in: what stands before its last component. The root and the
/// empty path have none.
pub open spec fn parent(path: Seq<char>) -> Option<Seq<char>> {
    let p = without_tail(path, path.len());
    if p.len() == 0 || p == seq!['/'] {
        None
    } else {
        match last_slash(p, p.len()) {
            Some(i) => Some(without_tail(p, (i + 1) as nat)),
            None => Some(Seq::empty()),
        }
    }
}

/// A file in a directory.
pub open spec fn file_in(dir: Seq<char>, name: Seq<char>) -> Seq<char> {
    if dir.len() == 0 || dir.last() == '/' {
        dir + name
    } else {
        dir + seq!['/'] + name
    }
}

/// The file of that name beside the one at the path; in the present directory where the path has no
/// parent.
pub open spec fn beside(path: Seq<char>, name: Seq<char>) -> Seq<char> {
    match parent(path) {
        Some(d) => file_in(d, name),
        None => file_in("."@, name),
    }
}

fn tail_end(p: &str, end: usize) -> (r: usize)
    requires
        end <= p@.len(),
    ensures
        r <= end,
        without_tail(p@, end as nat) == p@.take(r as int),
{
    let mut n: usize = end;
    while n >= 2 && (p.get_char(n - 1) == '/' || (p.get_char(n - 1) == '.' && p.get_char(n - 2) == '/'))
        invariant
            n <= end <= p@.len(),
            without_tail(p@, end as nat) == without_tail(p@, n as nat),
        decreases n,
    {
        n = n - 1;
    }
    n
}

proof fn lemma_take(p: Seq<char>, m: nat, n: nat)
    requires
        n <= m <= p.len(),
    ensures
        last_slash(p.take(m as int), n) == last_slash(p, n),
        without_tail(p.take(m as int), n) == without_tail(p, n),
        last_slash(p, n) matches Some(i) ==> 0 <= i < n,
    decreases n,
{
    if n > 0 {
        lemma_take(p, m, (n - 1) as nat);
    }
    assert(p.take(m as int).take(n as int) =~= p.take(n as int));
}

/// The file of that name beside the one at the path.
pub fn sibling(path: &str, name: &str) -> (r: String)
    ensures
        r@ == beside(path@, name@),
{
    let n: usize = tail_end(path, path.unicode_len());
    let ghost p = path@.take(n as int);
    proof {
        reveal_strlit(".");
        reveal_strlit("/");
    }
    if n == 0 || (n == 1 && path.get_char(0) == '/') {
        proof {
            if n == 1 {
                assert(p =~= seq!['/']);
            }
        }
        let mut s: String = "./".to_owned();
        s.append(name);
        proof {
            reveal_strlit("./");
            assert("./"@ =~= "."@ + seq!['/']);
            assert(s@ =~= beside(path@, name@));
        }
        return s;
    }
    assert(p[0] == path@[0]);
    assert(p != seq!['/']);
    let mut k: usize = n;
    while k > 0 && path.get_char(k - 1) != '/'
        invariant
            k <= n <= path@.len(),
            last_slash(path@, n as nat) == last_slash(path@, k as nat),
        decreases k,
    {
        k = k - 1;
    }
    proof {
        lemma_take(path@, n as nat, n as nat);
        lemma_take(path@, n as nat, k as nat);
    }
    let end: usize = tail_end(path, k);
    let dir: &str = path.substring_char(0, end);
    assert(dir@ =~= path@.take(end as int));
    proof {
        if k == 0 {
            assert(dir@ =~= Seq::<char>::empty());
        }
        assert(parent(path@) == Some(dir@));
    }
    let mut s: String = dir.to_owned();
    if end > 0 && path.get_char(end - 1) != '/' {
        s.append("/");
        assert("/"@ =~= seq!['/']);
    }
    s.append(name);
    assert(s@ =~= beside(path@, name@));
    s
}

} // verus!
