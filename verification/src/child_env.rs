//! What a shell started in a terminal gets, prepared before it is forked:
//! its environment (the parent's, with the terminal's own variables set) and
//! the paths at which its program is looked for, as `execvp(3)` would. Names,
//! values and paths are the bytes the operating system holds.
use crate::text::{bytes_equal, copy_bytes};
use vstd::prelude::*;
use vstd::utf8::encode_utf8;
use vstd::string::StringExecFns;

verus! {

/// The entries of an environment, as byte strings.
pub open spec fn env_view(env: Seq<(Vec<u8>, Vec<u8>)>) -> Seq<(Seq<u8>, Seq<u8>)> {
    env.map_values(|e: (Vec<u8>, Vec<u8>)| (e.0@, e.1@))
}

/// The position of the first entry named `key`, if any.
pub open spec fn entry_index(env: Seq<(Seq<u8>, Seq<u8>)>, key: Seq<u8>) -> Option<int> {
    if exists|i: int| 0 <= i < env.len() && env[i].0 == key {
        Some(choose|i: int| 0 <= i < env.len() && env[i].0 == key && forall|j: int| 0 <= j < i ==> env[j].0 != key)
    } else {
        None
    }
}

/// The environment with `key` set to `value`: the first entry of that name
/// takes the value, or a new entry is added at the end.
pub open spec fn upserted(env: Seq<(Seq<u8>, Seq<u8>)>, key: Seq<u8>, value: Seq<u8>) -> Seq<(Seq<u8>, Seq<u8>)> {
    match entry_index(env, key) {
        Some(i) => env.update(i, (key, value)),
        None => env.push((key, value)),
    }
}

/// The position of the first entry named `key`, computed.
fn find_entry(env: &[(Vec<u8>, Vec<u8>)], key: &[u8]) -> (r: Option<usize>)
    ensures
        match r {
            Some(i) => entry_index(env_view(env@), key@) == Some(i as int) && i < env@.len(),
            None => entry_index(env_view(env@), key@) is None,
        },
{
    let ghost view = env_view(env@);
    let mut i: usize = 0;
    while i < env.len()
        invariant
            i <= env@.len(),
            view == env_view(env@),
            forall|j: int| 0 <= j < i ==> view[j].0 != key@,
        decreases env@.len() - i,
    {
        if bytes_equal(env[i].0.as_slice(), key) {
            proof {
                let ii = i as int;
                assert(view[ii].0 == key@);
                assert(0 <= ii < view.len() && view[ii].0 == key@ && forall|j: int|
                    0 <= j < ii ==> view[j].0 != key@);
                assert(exists|x: int|
                    0 <= x < view.len() && view[x].0 == key@ && forall|j: int|
                        0 <= j < x ==> view[j].0 != key@);
                let k = choose|k: int|
                    0 <= k < view.len() && view[k].0 == key@ && forall|j: int|
                        0 <= j < k ==> view[j].0 != key@;
                if k < ii {
                    assert(view[k].0 != key@);
                } else if k > ii {
                    assert(view[ii].0 != key@);
                }
            }
            return Some(i);
        }
        i = i + 1;
    }
    assert(!(exists|x: int| 0 <= x < view.len() && view[x].0 == key@));
    None
}

/// Sets `key` to `value` in an environment.
pub fn upsert_env(env: &mut Vec<(Vec<u8>, Vec<u8>)>, key: &[u8], value: &[u8])
    ensures
        env_view(final(env)@) == upserted(env_view(old(env)@), key@, value@),
{
    let ghost before = env_view(env@);
    match find_entry(env.as_slice(), key) {
        Some(i) => {
            let entry = (copy_bytes(key), copy_bytes(value));
            env.set(i, entry);
            assert(env_view(env@) =~= before.update(i as int, (key@, value@)));
        },
        None => {
            env.push((copy_bytes(key), copy_bytes(value)));
            assert(env_view(env@) =~= before.push((key@, value@)));
        },
    }
}

/// The environment after setting each `(name, value)` in turn.
pub open spec fn with_overrides(env: Seq<(Seq<u8>, Seq<u8>)>, overrides: Seq<(Seq<u8>, Seq<u8>)>) -> Seq<
    (Seq<u8>, Seq<u8>),
>
    decreases overrides.len(),
{
    if overrides.len() == 0 {
        env
    } else {
        upserted(with_overrides(env, overrides.drop_last()), overrides.last().0, overrides.last().1)
    }
}

/// The byte strings of `(name, value)` string pairs.
pub open spec fn pairs_bytes(pairs: Seq<(&str, &str)>) -> Seq<(Seq<u8>, Seq<u8>)> {
    pairs.map_values(|p: (&str, &str)| (encode_utf8(p.0@), encode_utf8(p.1@)))
}

/// The environment the shell sees: the parent's, with `TERM` and `COLORTERM`
/// announcing a 256-colour, true-colour terminal, then the caller's
/// overrides.
pub fn effective_env(parent: Vec<(Vec<u8>, Vec<u8>)>, overrides: &[(&str, &str)]) -> (env: Vec<
    (Vec<u8>, Vec<u8>),
>)
    ensures
        env_view(env@) == with_overrides(
            upserted(
                upserted(env_view(parent@), encode_utf8("TERM"@), encode_utf8("xterm-256color"@)),
                encode_utf8("COLORTERM"@),
                encode_utf8("truecolor"@),
            ),
            pairs_bytes(overrides@),
        ),
{
    let mut env = parent;
    upsert_env(&mut env, "TERM".as_bytes(), "xterm-256color".as_bytes());
    upsert_env(&mut env, "COLORTERM".as_bytes(), "truecolor".as_bytes());
    let ghost base = env_view(env@);
    let mut i: usize = 0;
    while i < overrides.len()
        invariant
            i <= overrides@.len(),
            env_view(env@) == with_overrides(base, pairs_bytes(overrides@.subrange(0, i as int))),
        decreases overrides@.len() - i,
    {
        let (k, v) = overrides[i];
        let ghost prefix = overrides@.subrange(0, i as int);
        let ghost next = overrides@.subrange(0, i + 1);
        assert(pairs_bytes(next).drop_last() =~= pairs_bytes(prefix));
        upsert_env(&mut env, k.as_bytes(), v.as_bytes());
        i = i + 1;
    }
    assert(overrides@.subrange(0, overrides@.len() as int) =~= overrides@);
    env
}

/// The index of the first `b` in `s`, or the length of `s` when there is none.
pub open spec fn byte_index(s: Seq<u8>, b: u8) -> int
    decreases s.len(),
{
    if s.len() == 0 {
        0
    } else if s[0] == b {
        0
    } else {
        1 + byte_index(s.drop_first(), b)
    }
}

proof fn lemma_byte_index(s: Seq<u8>, b: u8, j: int)
    requires
        0 <= j <= s.len(),
        forall|k: int| 0 <= k < j ==> s[k] != b,
        j == s.len() || s[j] == b,
    ensures
        byte_index(s, b) == j,
    decreases s.len(),
{
    if s.len() > 0 && j > 0 {
        lemma_byte_index(s.drop_first(), b, j - 1);
    }
}

/// Where `byte_index` points: within the sequence or just past its end.
pub proof fn lemma_byte_index_bounds(s: Seq<u8>, b: u8)
    ensures
        0 <= byte_index(s, b) <= s.len(),
    decreases s.len(),
{
    if s.len() > 0 && s[0] != b {
        lemma_byte_index_bounds(s.drop_first(), b);
    }
}

/// The entries of a search path: the parts between its colons, as
/// `std::env::split_paths` yields them on Unix.
pub open spec fn path_entries(s: Seq<u8>) -> Seq<Seq<u8>>
    decreases s.len(),
{
    let i = byte_index(s, 0x3a);
    if i >= s.len() {
        seq![s]
    } else {
        proof {
            lemma_byte_index_bounds(s, 0x3a);
        }
        seq![s.subrange(0, i)] + path_entries(s.subrange(i + 1, s.len() as int))
    }
}

/// The search path used when the environment has no `PATH`.
pub open spec fn default_search_path() -> Seq<u8> {
    encode_utf8("/usr/bin:/bin"@)
}

/// The search path of an environment: the value of its first `PATH` entry.
pub open spec fn search_path(env: Seq<(Seq<u8>, Seq<u8>)>) -> Seq<u8> {
    match entry_index(env, encode_utf8("PATH"@)) {
        Some(i) => env[i].1,
        None => default_search_path(),
    }
}

/// Where a program is looked for in a directory of the search path (an
/// empty entry meaning the current directory): the directory joined with
/// the program's name.
pub open spec fn candidate_path(dir: Seq<u8>, program: Seq<u8>) -> Seq<u8> {
    let d = if dir.len() == 0 {
        seq![0x2eu8]
    } else {
        dir
    };
    if d.last() == 0x2f {
        d + program
    } else {
        d + seq![0x2fu8] + program
    }
}

/// The paths at which a program is tried, in order: the program itself when
/// its name holds a `/`, else the name under each entry of the search path.
pub open spec fn candidate_paths(program: Seq<u8>, env: Seq<(Seq<u8>, Seq<u8>)>) -> Seq<Seq<u8>> {
    if program.contains(0x2f) {
        seq![program]
    } else {
        path_entries(search_path(env)).map_values(|d: Seq<u8>| candidate_path(d, program))
    }
}

/// Whether a path can be handed to the system: it holds no NUL byte.
pub open spec fn nul_free(p: Seq<u8>) -> bool {
    !p.contains(0u8)
}

fn has_byte(s: &[u8], b: u8) -> (r: bool)
    ensures
        r == s@.contains(b),
{
    let mut i: usize = 0;
    while i < s.len()
        invariant
            i <= s@.len(),
            forall|j: int| 0 <= j < i ==> s@[j] != b,
        decreases s@.len() - i,
    {
        if s[i] == b {
            assert(s@[i as int] == b);
            return true;
        }
        i = i + 1;
    }
    false
}

/// Splits a search path at its colons.
fn split_path_entries(s: &[u8]) -> (out: Vec<Vec<u8>>)
    ensures
        out@.map_values(|v: Vec<u8>| v@) == path_entries(s@),
{
    let n = s.len();
    let mut out: Vec<Vec<u8>> = Vec::new();
    let mut start: usize = 0;
    let mut i: usize = 0;
    assert(s@.subrange(0, n as int) =~= s@);
    while i < n
        invariant
            start <= i <= n == s@.len(),
            path_entries(s@) == out@.map_values(|v: Vec<u8>| v@) + path_entries(
                s@.subrange(start as int, n as int),
            ),
            forall|k: int| start <= k < i ==> s@[k] != 0x3a,
        decreases n - i,
    {
        if s[i] == 0x3a {
            let ghost rest = s@.subrange(start as int, n as int);
            proof {
                lemma_byte_index(rest, 0x3a, i - start);
                assert(rest.subrange(0, i - start) =~= s@.subrange(start as int, i as int));
                assert(rest.subrange(i - start + 1, rest.len() as int) =~= s@.subrange(
                    i + 1,
                    n as int,
                ));
            }
            let part = copy_bytes(&s[start..i]);
            let ghost before = out@;
            out.push(part);
            proof {
                assert(part@ =~= s@.subrange(start as int, i as int));
                assert(out@.map_values(|v: Vec<u8>| v@) =~= before.map_values(|v: Vec<u8>| v@).push(
                    part@,
                ));
                assert(path_entries(s@) =~= out@.map_values(|v: Vec<u8>| v@) + path_entries(
                    s@.subrange(i + 1, n as int),
                ));
            }
            start = i + 1;
        }
        i = i + 1;
    }
    let ghost rest = s@.subrange(start as int, n as int);
    proof {
        lemma_byte_index(rest, 0x3a, rest.len() as int);
    }
    let part = copy_bytes(&s[start..n]);
    let ghost before = out@;
    out.push(part);
    assert(part@ =~= rest);
    assert(out@.map_values(|v: Vec<u8>| v@) =~= before.map_values(|v: Vec<u8>| v@).push(part@));
    assert(path_entries(s@) =~= out@.map_values(|v: Vec<u8>| v@));
    out
}

/// The paths at which the shell's program is tried before it is started,
/// as `execvp(3)` would try them. A path holding a NUL byte cannot be handed
/// to the system: then the result is the error `invalid shell path: ` and
/// the program.
pub fn program_candidates(program: &str, env: &[(Vec<u8>, Vec<u8>)]) -> (r: Result<Vec<Vec<u8>>, String>)
    ensures
        ({
            let paths = candidate_paths(encode_utf8(program@), env_view(env@));
            match r {
                Ok(c) => c@.map_values(|v: Vec<u8>| v@) == paths && forall|i: int|
                    0 <= i < paths.len() ==> nul_free(#[trigger] paths[i]),
                Err(m) => (exists|i: int| 0 <= i < paths.len() && !nul_free(#[trigger] paths[i]))
                    && m@ == "invalid shell path: "@ + program@,
            }
        }),
{
    let name = program.as_bytes();
    let ghost p = name@;
    let ghost paths = candidate_paths(p, env_view(env@));
    let mut error = String::from_str("invalid shell path: ");
    error.append(program);
    if has_byte(name, 0x2f) {
        if has_byte(name, 0) {
            assert(!nul_free(paths[0]));
            return Err(error);
        }
        let mut one: Vec<Vec<u8>> = Vec::new();
        one.push(copy_bytes(name));
        assert(one@.map_values(|v: Vec<u8>| v@) =~= paths);
        return Ok(one);
    }
    let default_path = "/usr/bin:/bin".as_bytes();
    let search: &[u8] = match find_entry(env, "PATH".as_bytes()) {
        Some(i) => env[i].1.as_slice(),
        None => default_path,
    };
    let entries = split_path_entries(search);
    let ghost dirs = entries@.map_values(|v: Vec<u8>| v@);
    assert(dirs == path_entries(search_path(env_view(env@))));
    let mut out: Vec<Vec<u8>> = Vec::new();
    let mut i: usize = 0;
    while i < entries.len()
        invariant
            i <= entries@.len(),
            dirs == entries@.map_values(|v: Vec<u8>| v@),
            paths == dirs.map_values(|d: Seq<u8>| candidate_path(d, p)),
            p == name@,
            p == encode_utf8(program@),
            paths == candidate_paths(encode_utf8(program@), env_view(env@)),
            !p.contains(0x2f),
            error@ == "invalid shell path: "@ + program@,
            out@.map_values(|v: Vec<u8>| v@) == paths.subrange(0, i as int),
            forall|j: int| 0 <= j < i ==> nul_free(#[trigger] paths[j]),
        decreases entries@.len() - i,
    {
        let dir = &entries[i];
        let mut path: Vec<u8> = Vec::new();
        if dir.len() == 0 {
            path.push(0x2e);
        } else {
            path = copy_bytes(dir.as_slice());
        }
        let ghost d = path@;
        if path[path.len() - 1] != 0x2f {
            path.push(0x2f);
        }
        let tail = copy_bytes(name);
        let mut k: usize = 0;
        let ghost head = path@;
        while k < tail.len()
            invariant
                k <= tail@.len(),
                tail@ == p,
                path@ == head + tail@.subrange(0, k as int),
            decreases tail@.len() - k,
        {
            path.push(tail[k]);
            k = k + 1;
            assert(path@ =~= head + tail@.subrange(0, k as int));
        }
        assert(tail@.subrange(0, tail@.len() as int) =~= tail@);
        assert(path@ =~= candidate_path(dirs[i as int], p));
        assert(paths[i as int] == path@);
        if has_byte(path.as_slice(), 0) {
            assert(!nul_free(paths[i as int]));
            return Err(error);
        }
        let ghost before = out@;
        let ghost pv = path@;
        out.push(path);
        assert(out@.map_values(|v: Vec<u8>| v@) =~= before.map_values(|v: Vec<u8>| v@).push(pv));
        assert(paths.subrange(0, i + 1) =~= paths.subrange(0, i as int).push(pv));
        i = i + 1;
    }
    assert(paths.subrange(0, paths.len() as int) =~= paths);
    Ok(out)
}

/// An environment with an entry named `key` has a first such entry.
proof fn lemma_first_entry_exists(env: Seq<(Seq<u8>, Seq<u8>)>, key: Seq<u8>, x: int)
    requires
        0 <= x < env.len(),
        env[x].0 == key,
    ensures
        exists|y: int|
            0 <= y < env.len() && env[y].0 == key && forall|j: int| 0 <= j < y ==> env[j].0 != key,
    decreases x,
{
    if exists|j: int| 0 <= j < x && env[j].0 == key {
        let j = choose|j: int| 0 <= j < x && env[j].0 == key;
        lemma_first_entry_exists(env, key, j);
    } else {
        assert(0 <= x < env.len() && env[x].0 == key && forall|j: int| 0 <= j < x ==> env[j].0 != key);
    }
}

/// After a variable is set, the first entry of that name holds the value,
/// and every other entry is as it was.
pub proof fn lemma_upsert_then_lookup(env: Seq<(Seq<u8>, Seq<u8>)>, key: Seq<u8>, value: Seq<u8>)
    ensures
        ({
            let after = upserted(env, key, value);
            &&& entry_index(after, key) matches Some(i) && after[i] == (key, value)
            &&& after.len() >= env.len()
            &&& forall|j: int| 0 <= j < env.len() && env[j].0 != key ==> after[j] == env[j]
        }),
{
    let after = upserted(env, key, value);
    if exists|x: int| 0 <= x < env.len() && env[x].0 == key {
        let x = choose|x: int| 0 <= x < env.len() && env[x].0 == key;
        lemma_first_entry_exists(env, key, x);
    }
    match entry_index(env, key) {
        Some(i) => {
            assert(0 <= i < env.len() && env[i].0 == key && forall|j: int|
                0 <= j < i ==> env[j].0 != key);
            assert(after[i].0 == key);
            assert(forall|j: int| 0 <= j < i ==> after[j].0 != key);
            assert(exists|x: int|
                0 <= x < after.len() && after[x].0 == key && forall|j: int|
                    0 <= j < x ==> after[j].0 != key);
            let k = choose|k: int|
                0 <= k < after.len() && after[k].0 == key && forall|j: int|
                    0 <= j < k ==> after[j].0 != key;
            if k < i {
                assert(after[k] == env[k]);
            } else if k > i {
                assert(after[i].0 != key);
            }
        },
        None => {
            let n = env.len() as int;
            assert(!(exists|x: int| 0 <= x < env.len() && env[x].0 == key));
            assert(after[n].0 == key);
            assert(forall|j: int| 0 <= j < n ==> after[j].0 != key) by {
                assert forall|j: int| 0 <= j < n implies after[j].0 != key by {
                    assert(after[j] == env[j]);
                }
            }
            assert(exists|x: int|
                0 <= x < after.len() && after[x].0 == key && forall|j: int|
                    0 <= j < x ==> after[j].0 != key);
            let k = choose|k: int|
                0 <= k < after.len() && after[k].0 == key && forall|j: int|
                    0 <= j < k ==> after[j].0 != key;
            assert(k == n);
        },
    }
}

} // verus!
