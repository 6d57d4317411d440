use vstd::prelude::*;
use vstd::string::*;

verus! {

/// `s` without the slashes at its end.
pub open spec fn trim_trailing(s: Seq<char>) -> Seq<char>
    decreases s.len(),
{
    if s.len() > 0 && s.last() == '/' {
        trim_trailing(s.drop_last())
    } else {
        s
    }
}

/// The key under which a mount route is stored: the route without trailing
/// slashes, with a leading slash unless it is empty. `"/static/"` and
/// `"static"` both give `"/static"`; `"/"` gives the empty key, the root.
pub open spec fn mount_key(route: Seq<char>) -> Seq<char> {
    let t = trim_trailing(route);
    if t.len() == 0 || t[0] == '/' {
        t
    } else {
        seq!['/'] + t
    }
}

/// Whether `path` lies under the mount `key`: the root key holds every path;
/// any other key must be a prefix of the path that ends where a path segment
/// ends.
pub open spec fn under(key: Seq<char>, path: Seq<char>) -> bool {
    key.len() == 0 || (key.len() <= path.len() && path.take(key.len() as int) == key && (key.len()
        == path.len() || path[key.len() as int] == '/'))
}

/// `path` without its first `n` characters, or `"/"` when nothing is left.
pub open spec fn rest_after(n: int, path: Seq<char>) -> Seq<char> {
    if n >= path.len() {
        seq!['/']
    } else {
        path.skip(n)
    }
}

/// The path a mounted target sees: what follows the key, or `"/"` when
/// nothing follows.
pub open spec fn rewritten(key: Seq<char>, path: Seq<char>) -> Seq<char> {
    rest_after(key.len() as int, path)
}

/// A rewritten path as a static root sees it: without the slashes at its
/// front, so that it never names a place by an absolute path.
pub open spec fn relative(path: Seq<char>) -> Seq<char>
    decreases path.len(),
{
    if path.len() > 0 && path[0] == '/' {
        relative(path.skip(1))
    } else {
        path
    }
}

/// The segments of a path: the pieces between its slashes, empty ones
/// included. A path without a slash is one segment.
pub open spec fn segments(s: Seq<char>) -> Seq<Seq<char>>
    decreases s.len(),
{
    if s.len() == 0 {
        seq![Seq::<char>::empty()]
    } else {
        let before = segments(s.drop_last());
        if s.last() == '/' {
            before.push(Seq::<char>::empty())
        } else {
            before.drop_last().push(before.last().push(s.last()))
        }
    }
}

/// How a segment moves a walk below a root: `".."` one level up, an empty
/// segment or `"."` nowhere, any other segment one level down.
pub open spec fn step(segment: Seq<char>) -> int {
    if segment == seq!['.', '.'] {
        -1
    } else if segment.len() == 0 || segment == seq!['.'] {
        0
    } else {
        1
    }
}

/// Whether a walk that starts `depth` levels below a root and follows
/// `segs` in order is above the root after some step.
pub open spec fn climbs_out(segs: Seq<Seq<char>>, depth: int) -> bool
    decreases segs.len(),
{
    if segs.len() == 0 {
        false
    } else {
        let d = depth + step(segs[0]);
        d < 0 || climbs_out(segs.skip(1), d)
    }
}

/// Whether a relative path leaves the root it is resolved against.
pub open spec fn escapes_root(relative_path: Seq<char>) -> bool {
    climbs_out(segments(relative_path), 0)
}

/// The characters of a string, in order.
pub fn chars_of(s: &str) -> (v: Vec<char>)
    ensures
        v@ == s@,
{
    let mut v: Vec<char> = Vec::new();
    for c in it: s.chars()
        invariant
            v@ == s@.take(it.index() as int),
            it.seq() == s@,
    {
        v.push(c);
    }
    v
}

/// Computes the key under which a mount route is stored.
pub fn normalize_route(route: &str) -> (key: Vec<char>)
    ensures
        key@ == mount_key(route@),
{
    let mut v = chars_of(route);
    while v.len() > 0 && v[v.len() - 1] == '/'
        invariant
            trim_trailing(v@) == trim_trailing(route@),
        decreases v.len(),
    {
        let ghost before = v@;
        v.pop();
        assert(v@ == before.drop_last());
    }
    if v.len() > 0 && v[0] != '/' {
        let ghost t = v@;
        v.insert(0, '/');
        assert(v@ == seq!['/'] + t);
    }
    v
}

/// Decides whether `path` lies under the mount `key`.
pub fn is_under(key: &Vec<char>, path: &Vec<char>) -> (b: bool)
    ensures
        b == under(key@, path@),
{
    if key.len() == 0 {
        return true;
    }
    if key.len() > path.len() {
        return false;
    }
    let mut i: usize = 0;
    while i < key.len()
        invariant
            i <= key.len() <= path.len(),
            forall|j: int| 0 <= j < i ==> path@[j] == key@[j],
        decreases key.len() - i,
    {
        if path[i] != key[i] {
            assert(path@.take(key.len() as int)[i as int] != key@[i as int]);
            return false;
        }
        i = i + 1;
    }
    assert(path@.take(key.len() as int) == key@);
    key.len() == path.len() || path[key.len()] == '/'
}

/// Rewrites `path` for a target mounted under a key of `key_len` characters.
pub fn rewrite(key_len: usize, path: &str) -> (rest: String)
    ensures
        rest@ == rest_after(key_len as int, path@),
{
    let n = path.unicode_len();
    if key_len >= n {
        proof {
            reveal_strlit("/");
        }
        assert("/"@ == seq!['/']);
        "/".to_owned()
    } else {
        let rest = path.substring_char(key_len, n);
        assert(path@.subrange(key_len as int, n as int) == path@.skip(key_len as int));
        rest.to_owned()
    }
}

/// Drops the leading slashes of a rewritten path.
pub fn make_relative(path: &str) -> (rest: String)
    ensures
        rest@ == relative(path@),
{
    let chars = chars_of(path);
    let mut k: usize = 0;
    assert(chars@.skip(0) == chars@);
    while k < chars.len() && chars[k] == '/'
        invariant
            k <= chars@.len(),
            relative(chars@) == relative(chars@.skip(k as int)),
        decreases chars@.len() - k,
    {
        assert(chars@.skip(k as int).skip(1) == chars@.skip(k + 1));
        k = k + 1;
    }
    let rest = path.substring_char(k, chars.len());
    assert(path@.subrange(k as int, chars@.len() as int) == chars@.skip(k as int));
    rest.to_owned()
}

/// Splits a path into its segments.
pub fn split_segments(path: &Vec<char>) -> (segs: Vec<Vec<char>>)
    ensures
        segs@.len() == segments(path@).len(),
        forall|k: int| 0 <= k < segs@.len() ==> (#[trigger] segs@[k])@ == segments(path@)[k],
{
    let mut segs: Vec<Vec<char>> = Vec::new();
    let mut current: Vec<char> = Vec::new();
    let mut i: usize = 0;
    assert(path@.take(0) == Seq::<char>::empty());
    while i < path.len()
        invariant
            i <= path.len(),
            segs@.len() + 1 == segments(path@.take(i as int)).len(),
            forall|k: int| 0 <= k < segs@.len() ==> (#[trigger] segs@[k])@ == segments(path@.take(i as int))[k],
            current@ == segments(path@.take(i as int)).last(),
        decreases path.len() - i,
    {
        let ghost prefix = path@.take(i as int);
        let ghost next = path@.take(i + 1);
        assert(next.drop_last() == prefix);
        assert(next.last() == path@[i as int]);
        if path[i] == '/' {
            segs.push(current);
            current = Vec::new();
        } else {
            current.push(path[i]);
        }
        i = i + 1;
    }
    assert(path@.take(i as int) == path@);
    segs.push(current);
    segs
}

/// Decides whether a relative path leaves the root it is resolved against.
pub fn leaves_root(relative_path: &str) -> (b: bool)
    ensures
        b == escapes_root(relative_path@),
{
    let chars = chars_of(relative_path);
    let segs = split_segments(&chars);
    let ghost all = segments(relative_path@);
    let mut depth: usize = 0;
    let mut i: usize = 0;
    assert(all.skip(0) == all);
    while i < segs.len()
        invariant
            i <= segs.len(),
            depth <= i,
            all == segments(relative_path@),
            segs@.len() == all.len(),
            forall|k: int| 0 <= k < segs@.len() ==> (#[trigger] segs@[k])@ == all[k],
            climbs_out(all, 0) == climbs_out(all.skip(i as int), depth as int),
        decreases segs.len() - i,
    {
        let seg = &segs[i];
        let ghost rest = all.skip(i as int);
        assert(rest[0] == seg@);
        assert(rest.skip(1) == all.skip(i + 1));
        let up = seg.len() == 2 && seg[0] == '.' && seg[1] == '.';
        let stay = seg.len() == 0 || (seg.len() == 1 && seg[0] == '.');
        assert(up == (seg@ == seq!['.', '.'])) by {
            if up {
                assert(seg@ =~= seq!['.', '.']);
            }
        }
        assert(stay == (seg@.len() == 0 || seg@ == seq!['.'])) by {
            if seg.len() == 1 && seg[0] == '.' {
                assert(seg@ =~= seq!['.']);
            }
        }
        if up {
            if depth == 0 {
                assert(climbs_out(rest, 0));
                return true;
            }
            depth = depth - 1;
        } else if !stay {
            depth = depth + 1;
        }
        i = i + 1;
    }
    assert(all.skip(i as int).len() == 0);
    false
}

/// A trimmed route is the front of the route and ends in no slash.
pub proof fn lemma_trimmed(s: Seq<char>)
    ensures
        trim_trailing(s).len() <= s.len(),
        trim_trailing(s) == s.take(trim_trailing(s).len() as int),
        trim_trailing(s).len() > 0 ==> trim_trailing(s).last() != '/',
    decreases s.len(),
{
    if s.len() > 0 && s.last() == '/' {
        lemma_trimmed(s.drop_last());
        let t = trim_trailing(s);
        assert(s.drop_last().take(t.len() as int) == s.take(t.len() as int));
    } else {
        assert(s.take(s.len() as int) == s);
    }
}

/// A mount key is the root key or starts with a slash, and it ends in no
/// slash: it ends where a path segment ends.
pub proof fn lemma_mount_key_shape(route: Seq<char>)
    ensures
        mount_key(route).len() == 0 || (mount_key(route)[0] == '/' && mount_key(route).last()
            != '/'),
{
    lemma_trimmed(route);
}

/// Rewriting strips the key and nothing else: where more of the path
/// follows the key, key and rewritten path together are the path, and
/// below a key other than the root the rewritten path starts with a slash;
/// where nothing follows, the rewritten path is `"/"`.
pub proof fn lemma_rewrite_strips_key(key: Seq<char>, path: Seq<char>)
    requires
        under(key, path),
    ensures
        key.len() < path.len() ==> key + rewritten(key, path) == path,
        0 < key.len() < path.len() ==> rewritten(key, path)[0] == '/',
        key.len() >= path.len() ==> rewritten(key, path) == seq!['/'],
{
    if key.len() < path.len() {
        if key.len() > 0 {
            assert(path.take(key.len() as int) + path.skip(key.len() as int) == path);
        } else {
            assert(key + path.skip(0) == path);
        }
    }
}

/// A mount never catches a path that merely starts like its key: a path
/// that goes on after the key with anything but a slash is not under it.
pub proof fn lemma_longer_name_is_not_under(key: Seq<char>, path: Seq<char>)
    requires
        0 < key.len() < path.len(),
        path[key.len() as int] != '/',
    ensures
        !under(key, path),
{
}

/// A relative path starts with no slash: what a static root is asked for
/// is never an absolute path.
pub proof fn lemma_relative_starts_with_no_slash(path: Seq<char>)
    ensures
        relative(path).len() == 0 || relative(path)[0] != '/',
    decreases path.len(),
{
    if path.len() > 0 && path[0] == '/' {
        lemma_relative_starts_with_no_slash(path.skip(1));
    }
}

} // verus!
