//! The search path used to find editor and terminal programs: the process
//! path, the login shell's path and well-known install directories,
//! merged without repetition.

use vstd::prelude::*;

use crate::external_app::TargetOs;
use crate::paths::{join_path, path_comps, path_join, same_path};
use crate::text::{str_eq, strs_view};

verus! {

/// The components of each path of `s`.
pub open spec fn comps_of(s: Seq<Seq<char>>) -> Seq<Seq<Seq<char>>> {
    s.map_values(|x: Seq<char>| path_comps(x))
}

/// `s` without its later repetitions: each path kept at its first
/// occurrence, in order; two entries repeat each other when they name the
/// same path (the same components, as std compares paths).
pub open spec fn first_occurrences(s: Seq<Seq<char>>) -> Seq<Seq<char>>
    decreases s.len(),
{
    if s.len() == 0 {
        Seq::empty()
    } else {
        let rest = first_occurrences(s.drop_last());
        if comps_of(s.drop_last()).contains(path_comps(s.last())) {
            rest
        } else {
            rest.push(s.last())
        }
    }
}

pub proof fn lemma_first_occurrences_contains(s: Seq<Seq<char>>, c: Seq<Seq<char>>)
    ensures
        comps_of(first_occurrences(s)).contains(c) == comps_of(s).contains(c),
    decreases s.len(),
{
    if s.len() > 0 {
        let t = s.drop_last();
        lemma_first_occurrences_contains(t, c);
        assert(comps_of(s) =~= comps_of(t).push(path_comps(s.last())));
        let r = first_occurrences(t);
        if !comps_of(t).contains(path_comps(s.last())) {
            assert(comps_of(r.push(s.last())) =~= comps_of(r).push(path_comps(s.last())));
            if comps_of(r).contains(c) {
                let i = choose|i: int| 0 <= i < comps_of(r).len() && comps_of(r)[i] == c;
                assert(comps_of(r).push(path_comps(s.last()))[i] == c);
            }
            if comps_of(r).push(path_comps(s.last())).contains(c) && !comps_of(r).contains(c) {
                let i = choose|i: int| 0 <= i < comps_of(r).push(path_comps(s.last())).len() && comps_of(r).push(path_comps(s.last()))[i] == c;
                if i < comps_of(r).len() {
                    assert(comps_of(r)[i] == c);
                }
                assert(comps_of(s)[s.len() - 1] == c);
            }
        }
        if comps_of(t).contains(c) {
            let i = choose|i: int| 0 <= i < comps_of(t).len() && comps_of(t)[i] == c;
            assert(comps_of(s)[i] == c);
        }
        if comps_of(s).contains(c) && !comps_of(t).contains(c) {
            let i = choose|i: int| 0 <= i < comps_of(s).len() && comps_of(s)[i] == c;
            if i < t.len() {
                assert(comps_of(t)[i] == c);
            }
            assert(c == path_comps(s.last()));
            if comps_of(t).contains(path_comps(s.last())) {
                assert(comps_of(t).contains(c));
            } else {
                assert(comps_of(r).push(path_comps(s.last()))[comps_of(r).len() as int] == c);
            }
        }
    }
}

/// The path entries without repetitions (see [`first_occurrences`]),
/// first occurrences kept in order.
pub fn merge_paths(entries: &[String]) -> (r: Vec<String>)
    ensures
        strs_view(r@) == first_occurrences(strs_view(entries@)),
{
    let ghost es = strs_view(entries@);
    let mut out: Vec<String> = Vec::new();
    let mut i: usize = 0;
    while i < entries.len()
        invariant
            i <= entries@.len(),
            es == strs_view(entries@),
            strs_view(out@) == first_occurrences(es.take(i as int)),
        decreases entries@.len() - i,
    {
        let ghost prefix = es.take(i as int);
        proof {
            assert(es.take(i + 1).drop_last() =~= prefix);
            assert(es.take(i + 1).last() == entries@[i as int]@);
            assert(comps_of(es.take(i + 1).drop_last()) =~= comps_of(prefix));
            lemma_first_occurrences_contains(prefix, path_comps(entries@[i as int]@));
        }
        let mut seen = false;
        let mut k: usize = 0;
        while k < out.len()
            invariant
                k <= out@.len(),
                seen == exists|t: int| 0 <= t < k && path_comps((#[trigger] out@[t])@) == path_comps(entries@[i as int]@),
                i < entries@.len(),
            decreases out@.len() - k,
        {
            if same_path(out[k].as_str(), entries[i].as_str()) {
                seen = true;
            }
            k = k + 1;
        }
        proof {
            let ov = comps_of(strs_view(out@));
            if seen {
                let t = choose|t: int| 0 <= t < k && path_comps((#[trigger] out@[t])@) == path_comps(entries@[i as int]@);
                assert(ov[t] == path_comps(entries@[i as int]@));
            } else {
                assert forall|t: int| 0 <= t < ov.len() implies ov[t] != path_comps(entries@[i as int]@) by {
                    assert(ov[t] == path_comps(out@[t]@));
                }
            }
        }
        if !seen {
            let ghost before = strs_view(out@);
            out.push(entries[i].clone());
            proof {
                assert(strs_view(out@) =~= before.push(entries@[i as int]@));
            }
        }
        i = i + 1;
    }
    assert(es.take(i as int) =~= es);
    out
}

/// Marker written before the login shell's `PATH`.
pub open spec fn start_marker() -> Seq<u8> {
    seq![95u8, 95, 67, 68, 84, 95, 80, 65, 84, 72, 95, 83, 84, 65, 82, 84, 95, 95]
}

/// Marker written after the login shell's `PATH`.
pub open spec fn end_marker() -> Seq<u8> {
    seq![95u8, 95, 67, 68, 84, 95, 80, 65, 84, 72, 95, 69, 78, 68, 95, 95]
}

/// First position at or after `from` where `pat` occurs in `hay`.
pub open spec fn find_bytes_from(hay: Seq<u8>, pat: Seq<u8>, from: int) -> Option<int>
    decreases hay.len() + 1 - from,
{
    if from < 0 || from + pat.len() > hay.len() {
        None
    } else if hay.subrange(from, from + pat.len()) == pat {
        Some(from)
    } else {
        find_bytes_from(hay, pat, from + 1)
    }
}

fn find_bytes(hay: &[u8], pat: &[u8], from: usize) -> (r: Option<usize>)
    requires
        from <= hay@.len(),
    ensures
        match r {
            Some(i) => find_bytes_from(hay@, pat@, from as int) == Some(i as int) && i + pat@.len() <= hay@.len(),
            None => find_bytes_from(hay@, pat@, from as int) is None,
        },
{
    let h = hay.len();
    let n = pat.len();
    let mut i: usize = from;
    while n <= h - i
        invariant
            h == hay@.len(),
            n == pat@.len(),
            from <= i,
            i <= h,
            find_bytes_from(hay@, pat@, i as int) == find_bytes_from(hay@, pat@, from as int),
        decreases h - i,
    {
        let mut j: usize = 0;
        let mut same = true;
        while same && j < n
            invariant
                h == hay@.len(),
                n == pat@.len(),
                i + n <= h,
                j <= n,
                forall|t: int| 0 <= t < j ==> hay@[i + t] == pat@[t],
                !same ==> j < n && hay@[i + j] != pat@[j as int],
            decreases n - j + (if same { 1int } else { 0int }),
        {
            if hay[i + j] == pat[j] {
                j = j + 1;
            } else {
                same = false;
            }
        }
        if same {
            assert(hay@.subrange(i as int, i + n) =~= pat@);
            return Some(i);
        }
        assert(hay@.subrange(i as int, i + n)[j as int] != pat@[j as int]);
        i = i + 1;
    }
    None
}

/// The bytes between the start marker and the next end marker in the
/// login shell's output, or `None` when either marker is missing.
pub open spec fn sentinel_payload(out: Seq<u8>) -> Option<Seq<u8>> {
    match find_bytes_from(out, start_marker(), 0) {
        None => None,
        Some(s) => {
            let rest = out.skip(s + start_marker().len());
            match find_bytes_from(rest, end_marker(), 0) {
                None => None,
                Some(e) => Some(rest.take(e)),
            }
        },
    }
}

/// Extracts the `PATH` that the login shell printed between the markers.
pub fn extract_login_shell_path(stdout: &[u8]) -> (r: Option<Vec<u8>>)
    ensures
        match r {
            Some(v) => sentinel_payload(stdout@) == Some(v@),
            None => sentinel_payload(stdout@) is None,
        },
{
    let start: Vec<u8> = vec![95u8, 95, 67, 68, 84, 95, 80, 65, 84, 72, 95, 83, 84, 65, 82, 84, 95, 95];
    let end: Vec<u8> = vec![95u8, 95, 67, 68, 84, 95, 80, 65, 84, 72, 95, 69, 78, 68, 95, 95];
    assert(start@ =~= start_marker());
    assert(end@ =~= end_marker());
    let total = stdout.len();
    let s = match find_bytes(stdout, start.as_slice(), 0) {
        None => {
            assert(find_bytes_from(stdout@, start_marker(), 0) is None);
            assert(sentinel_payload(stdout@) is None);
            return None;
        },
        Some(s) => s,
    };
    let content_start = s + start.len();
    let mut rest: Vec<u8> = Vec::new();
    let mut k: usize = content_start;
    while k < stdout.len()
        invariant
            content_start <= k <= stdout@.len(),
            rest@ == stdout@.subrange(content_start as int, k as int),
        decreases stdout@.len() - k,
    {
        rest.push(stdout[k]);
        k = k + 1;
        assert(rest@ =~= stdout@.subrange(content_start as int, k as int));
    }
    assert(rest@ =~= stdout@.skip(content_start as int));
    proof {
        assert(find_bytes_from(stdout@, start_marker(), 0) == Some(s as int));
        assert(stdout@.skip(s + start_marker().len()) =~= rest@);
    }
    let e = match find_bytes(rest.as_slice(), end.as_slice(), 0) {
        None => {
            assert(find_bytes_from(rest@, end_marker(), 0) is None);
            return None;
        },
        Some(e) => e,
    };
    assert(find_bytes_from(rest@, end_marker(), 0) == Some(e as int));
    let mut payload: Vec<u8> = Vec::new();
    let mut t: usize = 0;
    while t < e
        invariant
            e <= rest@.len(),
            t <= e,
            payload@ == rest@.take(t as int),
        decreases e - t,
    {
        payload.push(rest[t]);
        t = t + 1;
        assert(payload@ =~= rest@.take(t as int));
    }
    Some(payload)
}

/// Install directories searched besides the path: per system, then the
/// user's own bin directories when the home directory is known (on Unix).
pub open spec fn well_known_dirs_of(os: TargetOs, home: Option<Seq<char>>) -> Seq<Seq<char>> {
    let system: Seq<Seq<char>> = match os {
        TargetOs::MacOs => seq!["/usr/local/bin"@, "/opt/homebrew/bin"@, "/opt/local/bin"@],
        TargetOs::Linux => seq!["/usr/local/bin"@, "/snap/bin"@, "/var/lib/flatpak/exports/bin"@],
        TargetOs::Windows => Seq::empty(),
    };
    let user: Seq<Seq<char>> = match (os, home) {
        (TargetOs::Windows, _) => Seq::empty(),
        (_, None) => Seq::empty(),
        (_, Some(h)) => seq![join_path(h, ".local/bin"@), join_path(h, ".cargo/bin"@), join_path(h, "bin"@)],
    };
    system + user
}

/// The well-known install directories for `os` and the home directory.
pub fn well_known_dirs(os: TargetOs, home: Option<&str>) -> (r: Vec<String>)
    ensures
        strs_view(r@) == well_known_dirs_of(
            os,
            match home {
                Some(h) => Some(h@),
                None => None,
            },
        ),
{
    let mut dirs: Vec<String> = Vec::new();
    match os {
        TargetOs::MacOs => {
            dirs.push(String::from_str("/usr/local/bin"));
            dirs.push(String::from_str("/opt/homebrew/bin"));
            dirs.push(String::from_str("/opt/local/bin"));
        },
        TargetOs::Linux => {
            dirs.push(String::from_str("/usr/local/bin"));
            dirs.push(String::from_str("/snap/bin"));
            dirs.push(String::from_str("/var/lib/flatpak/exports/bin"));
        },
        TargetOs::Windows => {},
    }
    let ghost system = strs_view(dirs@);
    if os != TargetOs::Windows {
        match home {
            Some(h) => {
                dirs.push(path_join(h, ".local/bin"));
                dirs.push(path_join(h, ".cargo/bin"));
                dirs.push(path_join(h, "bin"));
            },
            None => {},
        }
    }
    assert(strs_view(dirs@) =~= well_known_dirs_of(
        os,
        match home {
            Some(h) => Some(h@),
            None => None,
        },
    ));
    dirs
}

} // verus!
