use vstd::prelude::*;
use vstd::string::StrSliceExecFns;
use vstd::string::StringExecFns;

verus! {

/// The result of resolving a relative path `rel` against a base directory
/// `base`: the two joined by a single separator character.
pub open spec fn joined(base: Seq<char>, rel: Seq<char>) -> Seq<char> {
    base + seq!['/'] + rel
}

/// `p` lies strictly below the directory `anc`: it starts with `anc`
/// followed by a separator.
pub open spec fn strictly_under(anc: Seq<char>, p: Seq<char>) -> bool {
    &&& p.len() > anc.len()
    &&& p.subrange(0, anc.len() as int) == anc
    &&& p[anc.len() as int] == '/'
}

/// `p` is `anc` itself or lies strictly below it.
pub open spec fn under(anc: Seq<char>, p: Seq<char>) -> bool {
    p == anc || strictly_under(anc, p)
}

/// The directory that contains `p`: everything before the last separator.
/// `None` when `p` has no separator at all.
pub open spec fn parent_seq(p: Seq<char>) -> Option<Seq<char>>
    decreases p.len(),
{
    if p.len() == 0 {
        None
    } else if p.last() == '/' {
        Some(p.drop_last())
    } else {
        parent_seq(p.drop_last())
    }
}

/// A parent is always a strict prefix of its path.
pub proof fn lemma_parent_shorter(p: Seq<char>)
    ensures
        parent_seq(p) matches Some(q) ==> q.len() < p.len(),
    decreases p.len(),
{
    if p.len() > 0 && p.last() != '/' {
        lemma_parent_shorter(p.drop_last());
    }
}

/// A path that holds a separator somewhere has a parent.
pub proof fn lemma_parent_some(p: Seq<char>)
    requires
        exists|i: int| 0 <= i < p.len() && p[i] == '/',
    ensures
        parent_seq(p) is Some,
    decreases p.len(),
{
    if p.last() != '/' {
        let i = choose|i: int| 0 <= i < p.len() && p[i] == '/';
        assert(p.drop_last()[i] == '/');
        lemma_parent_some(p.drop_last());
    }
}

/// A joined path always has a parent: the separator the join inserted.
pub proof fn lemma_joined_parent_some(base: Seq<char>, rel: Seq<char>)
    ensures
        parent_seq(joined(base, rel)) is Some,
{
    assert(joined(base, rel)[base.len() as int] == '/');
    lemma_parent_some(joined(base, rel));
}

/// Joining always lands strictly below the base directory.
pub proof fn lemma_joined_strictly_under(base: Seq<char>, rel: Seq<char>)
    ensures
        strictly_under(base, joined(base, rel)),
{
    assert(joined(base, rel).subrange(0, base.len() as int) =~= base);
}

/// Resolve `rel` against `base` by inserting one path separator.
pub fn join_path(base: &str, rel: &str) -> (r: String)
    ensures
        r@ == joined(base@, rel@),
{
    let mut s = String::from_str(base);
    s.append("/");
    s.append(rel);
    proof {
        reveal_strlit("/");
        assert(s@ =~= joined(base@, rel@));
    }
    s
}

/// The directory component of `path`, or `None` when `path` holds no
/// separator.
pub fn parent_of(path: &str) -> (r: Option<String>)
    ensures
        match parent_seq(path@) {
            Some(q) => r matches Some(s) && s@ == q,
            None => r is None,
        },
{
    let n = path.unicode_len();
    let mut i: usize = n;
    proof {
        assert(path@.subrange(0, n as int) =~= path@);
    }
    while i > 0
        invariant
            i <= n,
            n == path@.len(),
            parent_seq(path@) == parent_seq(path@.subrange(0, i as int)),
        decreases i,
    {
        let c = path.get_char(i - 1);
        if c == '/' {
            let prefix = path.substring_char(0, i - 1);
            proof {
                let cut = path@.subrange(0, i as int);
                assert(cut.last() == '/');
                assert(cut.drop_last() =~= path@.subrange(0, i - 1 as int));
            }
            return Some(String::from_str(prefix));
        }
        proof {
            let cut = path@.subrange(0, i as int);
            assert(cut.last() != '/');
            assert(cut.drop_last() =~= path@.subrange(0, i - 1 as int));
        }
        i = i - 1;
    }
    proof {
        assert(path@.subrange(0, 0) =~= Seq::<char>::empty());
    }
    None
}

} // verus!
