//! Mapping between the remote namespace of a storage zone and local paths.
//!
//! A remote path is rooted at the zone: `/zone/dir/file`. Both sides of a
//! run are projected onto such zone-rooted keys before they are compared.
//! Paths are plain strings with `/` as the separator.

use vstd::prelude::*;
use vstd::string::StringExecFns;
use crate::text::{chars_have_prefix, chars_of, has_prefix, starts_with, tail_from};

verus! {

/// The marker that a command-line argument carries when it names a zone.
pub open spec fn zone_scheme() -> Seq<char> {
    "zone://"@
}

/// `s` without its scheme marker, if it has one.
pub open spec fn without_scheme(s: Seq<char>) -> Seq<char> {
    if has_prefix(s, zone_scheme()) {
        s.skip(zone_scheme().len() as int)
    } else {
        s
    }
}

/// The index of the first character of `s` at or after `i` that is not a
/// separator, or the length of `s`.
pub open spec fn skip_separators(s: Seq<char>, i: int) -> int
    decreases s.len() - i,
{
    if 0 <= i < s.len() && s[i] == '/' {
        skip_separators(s, i + 1)
    } else {
        i
    }
}

/// The index of the first separator of `s` at or after `i`, or the length
/// of `s`.
pub open spec fn segment_end(s: Seq<char>, i: int) -> int
    decreases s.len() - i,
{
    if 0 <= i < s.len() && s[i] != '/' {
        segment_end(s, i + 1)
    } else {
        i
    }
}

/// The first non-empty segment of `s`; empty where `s` has none.
pub open spec fn first_segment(s: Seq<char>) -> Seq<char> {
    let start = skip_separators(s, 0);
    s.subrange(start, segment_end(s, start))
}

/// The index just behind the last separator of `s`, or 0.
pub open spec fn leaf_start(s: Seq<char>) -> int
    decreases s.len(),
{
    if s.len() == 0 {
        0
    } else if s.last() == '/' {
        s.len() as int
    } else {
        leaf_start(s.drop_last())
    }
}

/// What follows the last separator of `s`: the name of the entry itself.
pub open spec fn leaf_of(s: Seq<char>) -> Seq<char> {
    s.skip(leaf_start(s))
}

/// `/zone/`, the start of every path below the zone's root.
pub open spec fn zone_prefix(zone: Seq<char>) -> Seq<char> {
    seq!['/'] + zone + seq!['/']
}

/// A remote path relative to the zone's root: one leading `/zone/` is
/// taken off, and the root itself is the empty path. A path that does not
/// lie under the zone is kept whole.
pub open spec fn below_zone(zone: Seq<char>, remote: Seq<char>) -> Seq<char> {
    if has_prefix(remote, zone_prefix(zone)) {
        remote.skip(zone_prefix(zone).len() as int)
    } else if remote == seq!['/'] + zone {
        Seq::empty()
    } else {
        remote
    }
}

/// `s` without the separators that it begins with.
pub open spec fn without_leading_separators(s: Seq<char>) -> Seq<char> {
    s.skip(skip_separators(s, 0))
}

/// `rest` appended to `base` with exactly one separator at the joint:
/// separators at the start of `rest` are not repeated, and one is added
/// only where `base` does not end in one. Where nothing but separators is
/// appended, the result is `base` itself.
pub open spec fn joined(base: Seq<char>, rest: Seq<char>) -> Seq<char> {
    let tail = without_leading_separators(rest);
    if tail.len() == 0 {
        base
    } else if base.len() == 0 || base.last() == '/' {
        base + tail
    } else {
        base + seq!['/'] + tail
    }
}

/// The local path that stands for `remote` below the directory `base`.
pub open spec fn local_path(base: Seq<char>, zone: Seq<char>, remote: Seq<char>) -> Seq<char> {
    joined(base, below_zone(zone, remote))
}

/// The key of the local file at `relative` in the zone-rooted namespace.
pub open spec fn local_key(zone: Seq<char>, relative: Seq<char>) -> Seq<char> {
    zone_prefix(zone) + relative
}

/// Whether an argument names a storage zone rather than a directory.
pub fn is_zone(path: &str) -> (r: bool)
    ensures
        r == has_prefix(path@, zone_scheme()),
{
    starts_with(path, "zone://")
}

/// Takes the `zone://` marker off an argument that has it.
pub fn strip_zone_prefix(path: &str) -> (r: &str)
    ensures
        r@ == without_scheme(path@),
{
    let scheme = "zone://";
    proof {
        reveal_strlit("zone://");
    }
    if starts_with(path, scheme) {
        tail_from(path, 7)
    } else {
        path
    }
}

/// The zone that a remote path lies in: its first non-empty segment.
pub fn zone_name(remote: &str) -> (r: String)
    ensures
        r@ == first_segment(remote@),
{
    let chars = chars_of(remote);
    let n = chars.len();
    let mut start: usize = 0;
    while start < n && chars[start] == '/'
        invariant
            start <= n,
            n == chars@.len(),
            skip_separators(chars@, 0) == skip_separators(chars@, start as int),
        decreases n - start,
    {
        start += 1;
    }
    let mut end: usize = start;
    while end < n && chars[end] != '/'
        invariant
            start <= end <= n,
            n == chars@.len(),
            segment_end(chars@, start as int) == segment_end(chars@, end as int),
        decreases n - end,
    {
        end += 1;
    }
    String::from_str(remote.substring_char(start, end))
}

/// How `leaf_start` goes from a prefix of `s` to the prefix that is one
/// character shorter: a separator at the end of the prefix is where the
/// leaf starts, and any other character leaves the start where it is in
/// the shorter prefix.
pub proof fn lemma_leaf_start_step(s: Seq<char>, n: int)
    requires
        0 < n <= s.len(),
    ensures
        s[n - 1] == '/' ==> leaf_start(s.subrange(0, n)) == n,
        s[n - 1] != '/' ==> leaf_start(s.subrange(0, n)) == leaf_start(s.subrange(0, n - 1)),
{
    let head = s.subrange(0, n);
    assert(head.len() == n);
    assert(head.last() == s[n - 1]);
    assert(head.drop_last() =~= s.subrange(0, n - 1));
}

/// The name of the entry at `path`: what follows its last separator.
pub fn leaf_name(path: &str) -> (r: String)
    ensures
        r@ == leaf_of(path@),
{
    let chars = chars_of(path);
    let mut start: usize = chars.len();
    proof {
        assert(chars@.subrange(0, chars@.len() as int) =~= chars@);
    }
    while start > 0 && chars[start - 1] != '/'
        invariant
            start <= chars@.len(),
            leaf_start(chars@) == leaf_start(chars@.subrange(0, start as int)),
        decreases start,
    {
        proof {
            lemma_leaf_start_step(chars@, start as int);
        }
        start -= 1;
    }
    proof {
        if start > 0 {
            lemma_leaf_start_step(chars@, start as int);
        } else {
            assert(chars@.subrange(0, 0).len() == 0);
        }
        assert(leaf_start(chars@) == start);
    }
    String::from_str(tail_from(path, start))
}

/// The remote path `remote` relative to the root of `zone`.
pub fn strip_zone<'a>(zone: &str, remote: &'a str) -> (r: &'a str)
    ensures
        r@ == below_zone(zone@, remote@),
{
    let zone_chars = chars_of(zone);
    let remote_chars = chars_of(remote);
    let mut root: Vec<char> = Vec::new();
    root.push('/');
    let mut i: usize = 0;
    while i < zone_chars.len()
        invariant
            i <= zone_chars@.len(),
            root@ == seq!['/'] + zone_chars@.subrange(0, i as int),
        decreases zone_chars.len() - i,
    {
        root.push(zone_chars[i]);
        proof {
            assert(root@ =~= seq!['/'] + zone_chars@.subrange(0, i as int + 1));
        }
        i += 1;
    }
    proof {
        assert(zone_chars@.subrange(0, i as int) =~= zone_chars@);
    }
    let mut prefix = root.clone();
    prefix.push('/');
    proof {
        assert(prefix@ =~= zone_prefix(zone@));
    }
    if chars_have_prefix(&remote_chars, &prefix) {
        tail_from(remote, prefix.len())
    } else if remote_chars.len() == root.len() && chars_have_prefix(&remote_chars, &root) {
        proof {
            assert(remote@.subrange(0, root@.len() as int) =~= remote@);
        }
        tail_from(remote, root.len())
    } else {
        proof {
            if remote@ == seq!['/'] + zone@ {
                assert(remote@.subrange(0, root@.len() as int) =~= remote@);
            }
        }
        remote
    }
}

/// The index that `skip_separators` gives lies within `s`, only
/// separators stand before it, and none stands at it.
pub proof fn lemma_skip_separators(s: Seq<char>, i: int)
    requires
        0 <= i <= s.len(),
    ensures
        i <= skip_separators(s, i) <= s.len(),
        forall|j: int| i <= j < skip_separators(s, i) ==> s[j] == '/',
        skip_separators(s, i) < s.len() ==> s[skip_separators(s, i)] != '/',
    decreases s.len() - i,
{
    if i < s.len() && s[i] == '/' {
        lemma_skip_separators(s, i + 1);
    }
}

/// The number of separators that `s` begins with.
pub fn leading_separators(s: &str) -> (r: usize)
    ensures
        r == skip_separators(s@, 0),
        r <= s@.len(),
{
    let chars = chars_of(s);
    let mut count: usize = 0;
    while count < chars.len() && chars[count] == '/'
        invariant
            count <= chars@.len(),
            skip_separators(chars@, 0) == skip_separators(chars@, count as int),
        decreases chars.len() - count,
    {
        count += 1;
    }
    count
}

/// The local path below `local_base` that stands for the remote path
/// `remote_path` of the zone `zone_name`.
///
/// One leading `/zone_name/` is taken off the remote path and the rest is
/// appended to `local_base` with exactly one separator at the joint: none
/// is added where `local_base` ends in one, and those that the rest begins
/// with are not repeated. The zone's root, and the empty path, give
/// `local_base` itself. Nothing is resolved against the file system.
pub fn get_path(local_base: &str, zone_name: &str, remote_path: &str) -> (r: String)
    ensures
        r@ == local_path(local_base@, zone_name@, remote_path@),
{
    let rest = strip_zone(zone_name, remote_path);
    let tail = tail_from(rest, leading_separators(rest));
    let base_chars = chars_of(local_base);
    let mut out = String::from_str(local_base);
    if tail.unicode_len() == 0 {
        return out;
    }
    if base_chars.len() > 0 && base_chars[base_chars.len() - 1] != '/' {
        proof {
            reveal_strlit("/");
        }
        out.append("/");
        proof {
            assert("/"@ =~= seq!['/']);
        }
    }
    out.append(tail);
    out
}

/// The characters of `s` with every `separator` turned into `/`.
pub open spec fn with_slashes(s: Seq<char>, separator: char) -> Seq<char> {
    s.map_values(
        |c: char|
            if c == separator {
                '/'
            } else {
                c
            },
    )
}

/// A path of the host, whose segments `separator` parts, as the library
/// holds paths: every `separator` becomes `/`, and every other character
/// stays.
pub fn to_forward_slashes(path: &str, separator: char) -> (r: String)
    ensures
        r@ == with_slashes(path@, separator),
{
    proof {
        reveal_strlit("/");
        reveal_strlit("");
    }
    let chars = chars_of(path);
    let n = chars.len();
    let mut out = String::from_str("");
    let mut i: usize = 0;
    proof {
        assert(out@ =~= with_slashes(chars@.take(0), separator));
    }
    while i < n
        invariant
            i <= n,
            n == chars@.len(),
            chars@ == path@,
            "/"@ == seq!['/'],
            out@ == with_slashes(chars@.take(i as int), separator),
        decreases n - i,
    {
        let ghost done = out@;
        if chars[i] == separator {
            out.append("/");
            i += 1;
            proof {
                assert(out@ =~= with_slashes(chars@.take(i as int), separator));
            }
        } else {
            let start = i;
            while i < n && chars[i] != separator
                invariant
                    start <= i <= n,
                    n == chars@.len(),
                    forall|k: int| start <= k < i ==> chars@[k] != separator,
                decreases n - i,
            {
                i += 1;
            }
            out.append(path.substring_char(start, i));
            proof {
                assert(out@ == done + chars@.subrange(start as int, i as int));
                assert(out@ =~= with_slashes(chars@.take(i as int), separator));
            }
        }
    }
    proof {
        assert(chars@.take(n as int) =~= chars@);
    }
    out
}

/// The zone-rooted key of the local file at `relative_path` below the
/// directory that is synchronised with the zone `zone_name`.
pub fn sync_key(zone_name: &str, relative_path: &str) -> (r: String)
    ensures
        r@ == local_key(zone_name@, relative_path@),
{
    proof {
        reveal_strlit("/");
        assert("/"@ =~= seq!['/']);
    }
    let mut out = String::from_str("/");
    out.append(zone_name);
    out.append("/");
    out.append(relative_path);
    out
}

/// A remote path that starts with `/zone/` loses exactly that one prefix, and
/// what follows is appended to the base: a second `/zone/` behind the first
/// stays. Where nothing follows the prefix, the local path is the base.
pub proof fn lemma_local_path_strips_one_prefix(base: Seq<char>, zone: Seq<char>, rest: Seq<char>)
    ensures
        local_path(base, zone, zone_prefix(zone) + rest) == joined(base, rest),
        rest.len() == 0 ==> local_path(base, zone, zone_prefix(zone) + rest) == base,
        local_path(base, zone, zone_prefix(zone) + (zone_prefix(zone) + rest)) == joined(
            base,
            zone_prefix(zone) + rest,
        ),
{
    lemma_below_zone_of_prefixed(zone, rest);
    lemma_below_zone_of_prefixed(zone, zone_prefix(zone) + rest);
}

/// Below the zone's root, `/zone/rest` is `rest`.
pub proof fn lemma_below_zone_of_prefixed(zone: Seq<char>, rest: Seq<char>)
    ensures
        below_zone(zone, zone_prefix(zone) + rest) == rest,
{
    let prefix = zone_prefix(zone);
    let remote = prefix + rest;
    assert(remote.subrange(0, prefix.len() as int) =~= prefix);
    assert(remote.skip(prefix.len() as int) =~= rest);
}

/// The zone's root and the empty path both stand for the base itself.
pub proof fn lemma_local_path_of_root(base: Seq<char>, zone: Seq<char>)
    ensures
        local_path(base, zone, seq!['/'] + zone) == base,
        local_path(base, zone, Seq::empty()) == base,
{
    let root = seq!['/'] + zone;
    assert(!has_prefix(root, zone_prefix(zone)));
    assert(!has_prefix(Seq::<char>::empty(), zone_prefix(zone)));
}

/// A separator at the end of the base is not doubled: with or without it,
/// what is appended lands at the same path.
pub proof fn lemma_joined_ignores_trailing_separator(base: Seq<char>, rest: Seq<char>)
    requires
        base.len() > 0,
        base.last() != '/',
        without_leading_separators(rest).len() > 0,
    ensures
        joined(base + seq!['/'], rest) == joined(base, rest),
{
    let slashed = base + seq!['/'];
    assert(slashed.last() == '/');
}

/// Separators at the start of what is appended are not doubled either:
/// with or without them, it lands at the same path.
pub proof fn lemma_joined_ignores_leading_separator(base: Seq<char>, rest: Seq<char>)
    ensures
        joined(base, seq!['/'] + rest) == joined(base, rest),
{
    let slashed = seq!['/'] + rest;
    lemma_skip_separators_shift(rest, 0);
    lemma_skip_separators(rest, 0);
    assert(skip_separators(slashed, 0) == skip_separators(slashed, 1));
    assert(slashed.skip(skip_separators(rest, 0) + 1) =~= rest.skip(skip_separators(rest, 0)));
}

/// Behind one more separator in front, the separators end one place
/// later.
pub proof fn lemma_skip_separators_shift(s: Seq<char>, i: int)
    requires
        0 <= i <= s.len(),
    ensures
        skip_separators(seq!['/'] + s, i + 1) == skip_separators(s, i) + 1,
    decreases s.len() - i,
{
    let slashed = seq!['/'] + s;
    if i < s.len() {
        assert(slashed[i + 1] == s[i]);
        if s[i] == '/' {
            lemma_skip_separators_shift(s, i + 1);
        }
    }
}

/// In the ordinary case the local path is the plain concatenation: a base
/// that does not end in a separator, one separator, and what is appended,
/// which does not begin with one.
pub proof fn lemma_joined_plain(base: Seq<char>, rest: Seq<char>)
    requires
        base.len() > 0,
        base.last() != '/',
        rest.len() > 0,
        rest[0] != '/',
    ensures
        joined(base, rest) == base + seq!['/'] + rest,
{
    assert(rest.skip(0) =~= rest);
}

} // verus!
