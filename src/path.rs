use vstd::prelude::*;

use crate::fault::Fault;

verus! {

/// The versioned API root as seen upstream.
pub open spec fn version_root() -> Seq<char> {
    seq!['/', 'v', '1']
}

/// The inbound form of the API root for `prefix`: `/{prefix}/v1`.
pub open spec fn api_root(prefix: Seq<char>) -> Seq<char> {
    seq!['/'] + prefix + version_root()
}

/// The upstream path for `path` under `prefix`, or `None` when `path` does
/// not start with `/{prefix}/v1`.
pub open spec fn rewrite(path: Seq<char>, prefix: Seq<char>) -> Option<Seq<char>> {
    let root = api_root(prefix);
    if root.is_prefix_of(path) {
        Some(version_root() + path.subrange(root.len() as int, path.len() as int))
    } else {
        None
    }
}

/// Rewrites `/{prefix}/v1{suffix}` to `/v1{suffix}`; any other path is a bad request.
pub fn extract_path(path: &str, prefix: &str) -> (r: Result<String, Fault>)
    ensures
        match r {
            Ok(s) => rewrite(path@, prefix@) == Some(s@),
            Err(f) => rewrite(path@, prefix@) is None && f == Fault::BadRequest,
        },
{
    let n = path.unicode_len();
    let p = prefix.unicode_len();
    let ghost root = api_root(prefix@);
    assert(root.len() == p + 4 && root[0] == '/' && root[p + 1] == '/' && root[p + 2] == 'v'
        && root[p + 3] == '1');
    assert(forall|k: int| 0 <= k < p ==> root[k + 1] == #[trigger] prefix@[k]);
    if n < 4 || p > n - 4 {
        return Err(Fault::BadRequest);
    }
    if path.get_char(0) != '/' {
        return Err(Fault::BadRequest);
    }
    let mut i: usize = 0;
    while i < p
        invariant
            n == path@.len(),
            p == prefix@.len(),
            p + 4 <= n,
            i <= p,
            path@[0] == '/',
            root == api_root(prefix@),
            root.len() == p + 4,
            forall|k: int| 0 <= k < p ==> root[k + 1] == #[trigger] prefix@[k],
            forall|k: int| 0 <= k < i ==> path@[k + 1] == #[trigger] prefix@[k],
        decreases p - i,
    {
        if path.get_char(i + 1) != prefix.get_char(i) {
            assert(path@[i + 1] != root[i + 1]);
            assert(path@.subrange(0, root.len() as int)[i + 1] != root[i + 1]);
            return Err(Fault::BadRequest);
        }
        i = i + 1;
    }
    if path.get_char(p + 1) != '/' || path.get_char(p + 2) != 'v' || path.get_char(p + 3) != '1' {
        assert(path@[p + 1] != root[p + 1] || path@[p + 2] != root[p + 2] || path@[p + 3]
            != root[p + 3]);
        return Err(Fault::BadRequest);
    }
    assert(root.is_prefix_of(path@)) by {
        assert forall|k: int| 0 <= k < root.len() implies root[k] == path@[k] by {
            if 1 <= k <= p {
                assert(path@[(k - 1) + 1] == prefix@[k - 1]);
            }
        }
    }
    let suffix = path.substring_char(p + 4, n);
    let mut out = String::from_str("/v1");
    proof {
        reveal_strlit("/v1");
    }
    out.append(suffix);
    assert(out@ =~= version_root() + path@.subrange(root.len() as int, path@.len() as int));
    Ok(out)
}

/// A path built as `/{prefix}/v1{suffix}` is rewritten to `/v1{suffix}`,
/// whatever the prefix and the suffix (an empty suffix gives `/v1`).
pub proof fn lemma_rewrite_root_suffix(prefix: Seq<char>, suffix: Seq<char>)
    ensures
        rewrite(api_root(prefix) + suffix, prefix) == Some(version_root() + suffix),
        rewrite(api_root(prefix), prefix) == Some(version_root()),
{
    let path = api_root(prefix) + suffix;
    assert(api_root(prefix).is_prefix_of(path));
    assert(path.subrange(api_root(prefix).len() as int, path.len() as int) =~= suffix);
    assert(api_root(prefix).is_prefix_of(api_root(prefix)));
    assert(api_root(prefix).subrange(
        api_root(prefix).len() as int,
        api_root(prefix).len() as int,
    ) =~= Seq::<char>::empty());
    assert(version_root() + Seq::<char>::empty() =~= version_root());
}

/// A path that does not start with `/{prefix}/v1` is always refused.
pub proof fn lemma_rewrite_rejects_foreign(path: Seq<char>, prefix: Seq<char>)
    requires
        !api_root(prefix).is_prefix_of(path),
    ensures
        rewrite(path, prefix) is None,
{
}

} // verus!
