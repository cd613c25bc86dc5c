use vstd::prelude::*;

verus! {

/// The physical directory that holds the substitute assets.
pub const STREAM_DIR: &'static str = "rom:/stream";

/// The scheme that logical asset paths carry in place of the root directory.
pub open spec fn scheme() -> Seq<char> {
    seq!['s', 't', 'r', 'e', 'a', 'm', ':']
}

/// The legacy extension that logical paths are moved away from.
pub open spec fn legacy_ext() -> Seq<char> {
    seq!['m', 'p', '4']
}

/// The extension that replaces the legacy one.
pub open spec fn modern_ext() -> Seq<char> {
    seq!['w', 'e', 'b', 'm']
}

/// `dir/name`.
pub open spec fn join_spec(dir: Seq<char>, name: Seq<char>) -> Seq<char> {
    dir + seq!['/'] + name
}

/// The logical path of a physical path under `root`: the root prefix is
/// replaced by the scheme. `None` for a path outside `root`.
pub open spec fn logical_spec(root: Seq<char>, physical: Seq<char>) -> Option<Seq<char>> {
    if root.is_prefix_of(physical) {
        Some(scheme() + physical.skip(root.len() as int))
    } else {
        None
    }
}

pub open spec fn ends_with_legacy(p: Seq<char>) -> bool {
    p.len() >= 3 && p.subrange(p.len() - 3, p.len() as int) == legacy_ext()
}

/// A path ending in the legacy extension gets the modern one instead; any
/// other path stays as it is.
pub open spec fn rewrite_spec(p: Seq<char>) -> Seq<char> {
    if ends_with_legacy(p) {
        p.subrange(0, p.len() - 3) + modern_ext()
    } else {
        p
    }
}

/// The name holds the hidden-artifact marker `._`.
pub open spec fn hidden_spec(name: Seq<char>) -> bool {
    exists|i: int| 0 <= i && i + 1 < name.len() && #[trigger] name[i] == '.' && name[i + 1] == '_'
}

/// The name holds a dot.
pub open spec fn dotted_spec(name: Seq<char>) -> bool {
    name.contains('.')
}

/// Joins a directory and an entry name with a separator.
pub fn join_path(dir: &str, name: &str) -> (r: String)
    ensures
        r@ == join_spec(dir@, name@),
{
    let mut s = String::from_str(dir);
    s.append("/");
    s.append(name);
    proof {
        reveal_strlit("/");
    }
    s
}

/// Whether `prefix` is a prefix of `s`.
fn starts_with(s: &str, prefix: &str) -> (r: bool)
    ensures
        r == prefix@.is_prefix_of(s@),
{
    let n: usize = prefix.unicode_len();
    let m: usize = s.unicode_len();
    if n > m {
        return false;
    }
    let mut i: usize = 0;
    while i < n
        invariant
            n == prefix@.len(),
            m == s@.len(),
            n <= m,
            i <= n,
            forall|k: int| 0 <= k < i ==> prefix@[k] == s@[k],
        decreases n - i,
    {
        if prefix.get_char(i) != s.get_char(i) {
            return false;
        }
        i = i + 1;
    }
    true
}

/// The logical path of `physical` under `root`, or `None` when `physical`
/// does not lie under `root`.
pub fn logical_path(root: &str, physical: &str) -> (r: Option<String>)
    ensures
        match r {
            Some(l) => logical_spec(root@, physical@) == Some(l@),
            None => logical_spec(root@, physical@) is None,
        },
{
    if !starts_with(physical, root) {
        return None;
    }
    let n: usize = root.unicode_len();
    let m: usize = physical.unicode_len();
    let rest = physical.substring_char(n, m);
    let mut l = String::from_str("stream:");
    l.append(rest);
    proof {
        reveal_strlit("stream:");
        assert(rest@ =~= physical@.skip(n as int));
        assert(l@ =~= scheme() + physical@.skip(n as int));
    }
    Some(l)
}

/// Replaces a trailing legacy extension `mp4` by `webm`.
pub fn rewrite_extension(p: &str) -> (r: String)
    ensures
        r@ == rewrite_spec(p@),
{
    let n: usize = p.unicode_len();
    if n >= 3 && p.get_char(n - 3) == 'm' && p.get_char(n - 2) == 'p' && p.get_char(n - 1) == '4' {
        let stem = p.substring_char(0, n - 3);
        let mut r = String::from_str(stem);
        r.append("webm");
        proof {
            reveal_strlit("webm");
            assert(p@.subrange(n - 3, n as int) =~= legacy_ext());
            assert(r@ =~= p@.subrange(0, n - 3) + modern_ext());
        }
        r
    } else {
        proof {
            if ends_with_legacy(p@) {
                assert(p@.subrange(n - 3, n as int)[0] == 'm');
                assert(p@.subrange(n - 3, n as int)[1] == 'p');
                assert(p@.subrange(n - 3, n as int)[2] == '4');
            }
        }
        String::from_str(p)
    }
}

/// Whether a file name carries the hidden-artifact marker `._`.
pub fn is_hidden_name(name: &str) -> (r: bool)
    ensures
        r == hidden_spec(name@),
{
    let n: usize = name.unicode_len();
    let mut i: usize = 0;
    while i < n && n - i > 1
        invariant
            n == name@.len(),
            i <= n,
            forall|k: int| 0 <= k < i && k + 1 < n ==> !(#[trigger] name@[k] == '.' && name@[k + 1] == '_'),
        decreases n - i,
    {
        if name.get_char(i) == '.' && name.get_char(i + 1) == '_' {
            return true;
        }
        i = i + 1;
    }
    false
}

/// Whether a name holds a dot.
pub fn has_dot(name: &str) -> (r: bool)
    ensures
        r == dotted_spec(name@),
{
    let n: usize = name.unicode_len();
    let mut i: usize = 0;
    while i < n
        invariant
            n == name@.len(),
            i <= n,
            forall|k: int| 0 <= k < i ==> name@[k] != '.',
        decreases n - i,
    {
        if name.get_char(i) == '.' {
            return true;
        }
        i = i + 1;
    }
    false
}

/// Rewriting is idempotent: a rewritten path is left as it is.
pub proof fn lemma_rewrite_idempotent(p: Seq<char>)
    ensures
        rewrite_spec(rewrite_spec(p)) == rewrite_spec(p),
{
    let q = rewrite_spec(p);
    if ends_with_legacy(p) {
        let n = q.len();
        assert(q[n - 1] == 'm');
        assert(q.subrange(n - 3, n as int)[2] == 'm');
    }
}

/// A path ending in the legacy extension is never left as it was.
pub proof fn lemma_rewrite_moves_legacy(p: Seq<char>)
    requires
        ends_with_legacy(p),
    ensures
        rewrite_spec(p) != p,
        !ends_with_legacy(rewrite_spec(p)),
{
    let q = rewrite_spec(p);
    let n = q.len();
    assert(q[n - 1] == 'm');
    assert(q.subrange(n - 3, n as int)[2] == 'm');
    assert(p[p.len() - 1] == '4');
    assert(p.subrange(p.len() - 3, p.len() as int)[2] == '4');
    if q == p {
        assert(q[n - 1] == p[p.len() - 1]);
    }
}

} // verus!
