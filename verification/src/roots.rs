//! The directories to scan: those given with `--root`, else the user's home
//! and the current directory.

use vstd::prelude::*;

use crate::cli::Cli;
use crate::confirm::error_line;
use crate::types::text_string;
use crate::path::{
    display_text, first_after, lemma_first_after_bounds, lemma_sorted_by_path_contains,
    path_starts_with, paths_model, same_path,
    sort_paths, sorted_by_path, sorted_paths, FsPath,
};
use crate::text::{push_text, string_from_chars};

verus! {

/// The default roots: the home directory, and the current directory when it
/// is not inside the home directory; only the current directory when there
/// is no home.
pub open spec fn default_roots(home: Option<Seq<u8>>, current: Option<Seq<u8>>) -> Seq<Seq<u8>> {
    match home {
        Some(h) => match current {
            Some(c) => if !same_path(c, h) && !path_starts_with(c, h) {
                seq![h, c]
            } else {
                seq![h]
            },
            None => seq![h],
        },
        None => match current {
            Some(c) => seq![c],
            None => seq![],
        },
    }
}

/// The roots to scan when none are given, from the resolved home and
/// current directories.
pub fn default_scan_roots(home: Option<FsPath>, current: Option<FsPath>) -> (r: Vec<FsPath>)
    ensures
        paths_model(r@) == default_roots(
            match home {
                Some(h) => Some(h@),
                None => None,
            },
            match current {
                Some(c) => Some(c@),
                None => None,
            },
        ),
{
    let mut roots: Vec<FsPath> = Vec::new();
    match home {
        Some(h) => {
            let hm = h.duplicate();
            roots.push(h);
            match current {
                Some(c) => {
                    if !c.same_as(&hm) && !c.starts_with(&hm) {
                        roots.push(c);
                    }
                },
                None => {},
            }
        },
        None => match current {
            Some(c) => {
                roots.push(c);
            },
            None => {},
        },
    }
    proof {
        assert(paths_model(roots@) =~= default_roots(
            match home {
                Some(h) => Some(h@),
                None => None,
            },
            match current {
                Some(c) => Some(c@),
                None => None,
            },
        ));
    }
    roots
}

/// The roots to resolve: the given ones, else the defaults.
pub fn scan_root_candidates(cli: &Cli, defaults: Vec<FsPath>) -> (r: Vec<FsPath>)
    ensures
        paths_model(r@) == (if cli.roots.len() == 0 {
            paths_model(defaults@)
        } else {
            paths_model(cli.roots@)
        }),
{
    if cli.roots.len() == 0 {
        return defaults;
    }
    let mut out: Vec<FsPath> = Vec::new();
    let mut i: usize = 0;
    while i < cli.roots.len()
        invariant
            i <= cli.roots.len(),
            paths_model(out@) == paths_model(cli.roots@).take(i as int),
        decreases cli.roots.len() - i,
    {
        let ghost before = paths_model(out@);
        out.push(cli.roots[i].duplicate());
        assert(paths_model(out@) =~= before.push(cli.roots@[i as int]@));
        i = i + 1;
        assert(paths_model(out@) =~= paths_model(cli.roots@).take(i as int));
    }
    assert(paths_model(cli.roots@).take(cli.roots.len() as int) =~= paths_model(cli.roots@));
    out
}

/// Each candidate root with what resolving it to a canonical directory
/// gave (the path, or the error's text), as values.
pub open spec fn resolved_model(v: Seq<(FsPath, Result<FsPath, String>)>) -> Seq<(Seq<u8>, Result<Seq<u8>, Seq<char>>)> {
    v.map_values(
        |r: (FsPath, Result<FsPath, String>)|
            (
                r.0@,
                match r.1 {
                    Ok(p) => Ok(p@),
                    Err(e) => Err(e@),
                },
            ),
    )
}

/// The resolved roots in order, each kept unless an equal path came before.
pub open spec fn first_of_each(rs: Seq<(Seq<u8>, Result<Seq<u8>, Seq<char>>)>) -> Seq<Seq<u8>>
    decreases rs.len(),
{
    if rs.len() == 0 {
        seq![]
    } else {
        let prev = first_of_each(rs.drop_last());
        match rs.last().1 {
            Ok(p) => if exists|i: int| 0 <= i < prev.len() && same_path(#[trigger] prev[i], p) {
                prev
            } else {
                prev.push(p)
            },
            Err(_) => prev,
        }
    }
}

/// The index of the first root that failed to resolve, or the length.
pub open spec fn first_failure(rs: Seq<(Seq<u8>, Result<Seq<u8>, Seq<char>>)>, from: int) -> int
    decreases rs.len() - from,
{
    if from >= rs.len() {
        rs.len() as int
    } else if rs[from].1 is Err {
        from
    } else {
        first_failure(rs, from + 1)
    }
}

pub proof fn lemma_first_failure_bounds(rs: Seq<(Seq<u8>, Result<Seq<u8>, Seq<char>>)>, from: int)
    requires
        0 <= from,
    ensures
        from <= first_failure(rs, from) || from > rs.len(),
        first_failure(rs, from) <= rs.len() || from > rs.len(),
    decreases rs.len() - from,
{
    if from < rs.len() && !(rs[from].1 is Err) {
        lemma_first_failure_bounds(rs, from + 1);
    }
}

/// No two of the paths are the same path.
pub open spec fn distinct_paths(s: Seq<Seq<u8>>) -> bool {
    forall|i: int, j: int| 0 <= i < j < s.len() ==> !same_path(s[i], s[j])
}

proof fn lemma_first_of_each_distinct(rs: Seq<(Seq<u8>, Result<Seq<u8>, Seq<char>>)>)
    ensures
        distinct_paths(first_of_each(rs)),
    decreases rs.len(),
{
    if rs.len() > 0 {
        lemma_first_of_each_distinct(rs.drop_last());
        let prev = first_of_each(rs.drop_last());
        match rs.last().1 {
            Ok(p) => {
                if !(exists|i: int| 0 <= i < prev.len() && same_path(#[trigger] prev[i], p)) {
                    let next = prev.push(p);
                    assert forall|i: int, j: int| 0 <= i < j < next.len() implies !same_path(next[i], next[j]) by {
                        if j == prev.len() {
                            assert(next[i] == prev[i]);
                        } else {
                            assert(next[i] == prev[i] && next[j] == prev[j]);
                        }
                    }
                }
            },
            Err(_) => {},
        }
    }
}

/// The roots to scan. When roots were given, the first that cannot be
/// resolved to a directory is an error naming it; defaults that cannot be
/// resolved are dropped. Duplicates are dropped and the rest sorted.
pub open spec fn prepared_roots(rs: Seq<(Seq<u8>, Result<Seq<u8>, Seq<char>>)>, explicit: bool) -> Result<Seq<Seq<u8>>, Seq<char>> {
    let f = first_failure(rs, 0);
    if explicit && f < rs.len() {
        Err("invalid scan root "@ + display_text(rs[f].0) + ": "@ + rs[f].1->Err_0)
    } else {
        Ok(sorted_by_path(first_of_each(rs)))
    }
}

/// Every candidate that resolved has the same path among `v`.
pub open spec fn covers(v: Seq<Seq<u8>>, rs: Seq<(Seq<u8>, Result<Seq<u8>, Seq<char>>)>) -> bool {
    forall|i: int| 0 <= i < rs.len() && (#[trigger] rs[i]).1 is Ok ==> exists|j: int| 0 <= j < v.len()
        && same_path(#[trigger] v[j], rs[i].1->Ok_0)
}

/// Every path of `v` is what some candidate resolved to.
pub open spec fn drawn_from(v: Seq<Seq<u8>>, rs: Seq<(Seq<u8>, Result<Seq<u8>, Seq<char>>)>) -> bool {
    forall|j: int| 0 <= j < v.len() ==> exists|i: int| 0 <= i < rs.len()
        && (#[trigger] rs[i]).1 == Ok::<Seq<u8>, Seq<char>>(#[trigger] v[j])
}

proof fn lemma_first_of_each_covers(rs: Seq<(Seq<u8>, Result<Seq<u8>, Seq<char>>)>)
    ensures
        covers(first_of_each(rs), rs),
        drawn_from(first_of_each(rs), rs),
    decreases rs.len(),
{
    if rs.len() > 0 {
        let init = rs.drop_last();
        lemma_first_of_each_covers(init);
        let prev = first_of_each(init);
        let f = first_of_each(rs);
        let last = rs[rs.len() - 1];
        assert forall|i: int| 0 <= i < rs.len() && (#[trigger] rs[i]).1 is Ok implies exists|j: int| 0 <= j < f.len()
            && same_path(#[trigger] f[j], rs[i].1->Ok_0) by {
            if i < init.len() {
                assert(rs[i] == init[i]);
                let j = choose|j: int| 0 <= j < prev.len() && same_path(#[trigger] prev[j], init[i].1->Ok_0);
                if f == prev {
                } else {
                    assert(f[j] == prev[j]);
                }
            } else {
                let p = last.1->Ok_0;
                if exists|k: int| 0 <= k < prev.len() && same_path(#[trigger] prev[k], p) {
                    let k = choose|k: int| 0 <= k < prev.len() && same_path(#[trigger] prev[k], p);
                    assert(f[k] == prev[k]);
                } else {
                    assert(f[prev.len() as int] == p);
                }
            }
        }
        assert forall|j: int| 0 <= j < f.len() implies exists|i: int| 0 <= i < rs.len()
            && (#[trigger] rs[i]).1 == Ok::<Seq<u8>, Seq<char>>(#[trigger] f[j]) by {
            if j < prev.len() {
                assert(f[j] == prev[j]);
                let i = choose|i: int| 0 <= i < init.len() && (#[trigger] init[i]).1 == Ok::<Seq<u8>, Seq<char>>(prev[j]);
                assert(rs[i] == init[i]);
            } else {
                assert(rs[rs.len() - 1].1 == Ok::<Seq<u8>, Seq<char>>(f[j]));
            }
        }
    }
}

/// Which roots are scanned: every candidate that resolved to a directory is
/// scanned (up to the same path), whether the roots were given or are the
/// defaults, and nothing else is; defaults that do not resolve are dropped
/// without an error, while a given root that does not resolve is an error.
pub proof fn lemma_every_resolved_root_kept(rs: Seq<(Seq<u8>, Result<Seq<u8>, Seq<char>>)>, explicit: bool)
    ensures
        prepared_roots(rs, explicit) matches Ok(v) ==> covers(v, rs) && drawn_from(v, rs),
        !explicit ==> prepared_roots(rs, explicit) is Ok,
        explicit ==> (prepared_roots(rs, explicit) is Err <==> exists|i: int| 0 <= i < rs.len() && (#[trigger] rs[i]).1 is Err),
{
    lemma_first_of_each_covers(rs);
    lemma_first_failure_bounds(rs, 0);
    lemma_first_failure_finds(rs, 0);
    let f = first_of_each(rs);
    lemma_sorted_by_path_contains(f);
    let v = sorted_by_path(f);
    assert forall|i: int| 0 <= i < rs.len() && (#[trigger] rs[i]).1 is Ok implies exists|j: int| 0 <= j < v.len()
        && same_path(#[trigger] v[j], rs[i].1->Ok_0) by {
        let j = choose|j: int| 0 <= j < f.len() && same_path(#[trigger] f[j], rs[i].1->Ok_0);
        assert(f.contains(f[j]));
        assert(v.contains(f[j]));
        let k = choose|k: int| 0 <= k < v.len() && v[k] == f[j];
        assert(same_path(v[k], rs[i].1->Ok_0));
    }
    assert forall|j: int| 0 <= j < v.len() implies exists|i: int| 0 <= i < rs.len()
        && (#[trigger] rs[i]).1 == Ok::<Seq<u8>, Seq<char>>(#[trigger] v[j]) by {
        assert(v.contains(v[j]));
        assert(f.contains(v[j]));
        let k = choose|k: int| 0 <= k < f.len() && f[k] == v[j];
        let i = choose|i: int| 0 <= i < rs.len() && (#[trigger] rs[i]).1 == Ok::<Seq<u8>, Seq<char>>(f[k]);
    }
}

/// The first failure is a failure, and nothing before it failed.
proof fn lemma_first_failure_finds(rs: Seq<(Seq<u8>, Result<Seq<u8>, Seq<char>>)>, from: int)
    requires
        0 <= from <= rs.len(),
    ensures
        first_failure(rs, from) < rs.len() ==> rs[first_failure(rs, from)].1 is Err,
        forall|i: int| from <= i < first_failure(rs, from) && i < rs.len() ==> !((#[trigger] rs[i]).1 is Err),
    decreases rs.len() - from,
{
    if from < rs.len() && !(rs[from].1 is Err) {
        lemma_first_failure_finds(rs, from + 1);
    }
}

/// The scan roots, from each candidate paired with what resolving it to a
/// canonical directory gave (the path, or the error's text). The roots
/// returned are sorted and no two are the same path.
pub fn prepare_scan_roots(cli: &Cli, resolved: Vec<(FsPath, Result<FsPath, String>)>) -> (r: Result<Vec<FsPath>, String>)
    ensures
        match r {
            Ok(v) => prepared_roots(resolved_model(resolved@), cli.roots.len() > 0)
                == Ok::<Seq<Seq<u8>>, Seq<char>>(paths_model(v@)),
            Err(m) => prepared_roots(resolved_model(resolved@), cli.roots.len() > 0)
                == Err::<Seq<Seq<u8>>, Seq<char>>(m@),
        },
        r matches Ok(v) ==> sorted_paths(paths_model(v@)) && distinct_paths(paths_model(v@)),
        r matches Ok(v) ==> covers(paths_model(v@), resolved_model(resolved@)) && drawn_from(
            paths_model(v@),
            resolved_model(resolved@),
        ),
        cli.roots.len() == 0 ==> r is Ok,
{
    proof {
        lemma_every_resolved_root_kept(resolved_model(resolved@), cli.roots.len() > 0);
    }
    let explicit = cli.roots.len() > 0;
    let ghost rs = resolved_model(resolved@);
    let mut kept: Vec<FsPath> = Vec::new();
    let mut i: usize = 0;
    proof {
        lemma_first_failure_bounds(rs, 0);
        assert(paths_model(kept@) =~= first_of_each(rs.take(0)));
    }
    while i < resolved.len()
        invariant
            i <= resolved.len(),
            rs == resolved_model(resolved@),
            explicit == (cli.roots.len() > 0),
            paths_model(kept@) == first_of_each(rs.take(i as int)),
            explicit ==> first_failure(rs, 0) >= i,
            first_failure(rs, 0) >= i ==> first_failure(rs, 0) == first_failure(rs, i as int),
        decreases resolved.len() - i,
    {
        let ghost take_next = rs.take(i + 1);
        assert(take_next.drop_last() =~= rs.take(i as int));
        assert(take_next.last() == rs[i as int]);
        proof {
            lemma_first_failure_bounds(rs, i + 1);
        }
        match &resolved[i].1 {
            Err(e) => {
                if explicit {
                    let mut out: Vec<char> = Vec::new();
                    push_text(&mut out, "invalid scan root ");
                    let shown = resolved[i].0.display();
                    push_text(&mut out, shown.as_str());
                    push_text(&mut out, ": ");
                    push_text(&mut out, e.as_str());
                    return Err(string_from_chars(&out));
                }
            },
            Ok(p) => {
                let ghost prev = paths_model(kept@);
                let mut seen = false;
                let mut k: usize = 0;
                while k < kept.len()
                    invariant
                        k <= kept.len(),
                        prev == paths_model(kept@),
                        seen == exists|j: int| 0 <= j < k && same_path(#[trigger] prev[j], p@),
                    decreases kept.len() - k,
                {
                    let same = kept[k].same_as(p);
                    assert(prev[k as int] == kept@[k as int]@);
                    if same {
                        seen = true;
                    }
                    proof {
                        if !same {
                            assert forall|j: int| 0 <= j < k + 1 && same_path(#[trigger] prev[j], p@) implies 0 <= j < k by {}
                        }
                    }
                    k = k + 1;
                }
                if !seen {
                    kept.push(p.duplicate());
                    assert(paths_model(kept@) =~= prev.push(p@));
                }
            },
        }
        i = i + 1;
    }
    assert(rs.take(resolved.len() as int) =~= rs);
    proof {
        lemma_first_of_each_distinct(rs);
        lemma_sorted_by_path_distinct(paths_model(kept@));
    }
    Ok(sort_paths(kept))
}

/// Sorting paths of which no two are the same path keeps them so.
proof fn lemma_sorted_by_path_distinct(s: Seq<Seq<u8>>)
    requires
        distinct_paths(s),
    ensures
        distinct_paths(sorted_by_path(s)),
    decreases s.len(),
{
    if s.len() > 0 {
        let init = s.drop_last();
        assert(distinct_paths(init)) by {
            assert forall|i: int, j: int| 0 <= i < j < init.len() implies !same_path(init[i], init[j]) by {
                assert(init[i] == s[i] && init[j] == s[j]);
            }
        }
        lemma_sorted_by_path_distinct(init);
        lemma_sorted_by_path_contains(init);
        let rest = sorted_by_path(init);
        let x = s.last();
        lemma_first_after_bounds(rest, x, 0);
        let k = first_after(rest, x, 0);
        let out = rest.insert(k, x);
        assert forall|a: int, b: int| 0 <= a < b < out.len() implies !same_path(out[a], out[b]) by {
            if a != k && b != k {
                let a2 = if a < k { a } else { a - 1 };
                let b2 = if b < k { b } else { b - 1 };
                assert(out[a] == rest[a2] && out[b] == rest[b2]);
            } else {
                let o = if a == k { b } else { a };
                let o2 = if o < k { o } else { o - 1 };
                assert(out[o] == rest[o2]);
                assert(rest.contains(rest[o2]));
                assert(init.contains(rest[o2]));
                let m = choose|m: int| 0 <= m < init.len() && init[m] == rest[o2];
                assert(s[m] == init[m]);
                assert(!same_path(s[m], s[s.len() - 1]));
                assert(same_path(out[a], out[b]) == same_path(out[b], out[a]));
            }
        }
    }
}

/// Where the run stops before scanning, if it does: with status 2 when the
/// roots could not be prepared, or when none is left to scan.
pub open spec fn roots_stop_of(r: Result<Seq<Seq<u8>>, Seq<char>>) -> Option<(u8, Seq<char>)> {
    match r {
        Ok(v) => if v.len() == 0 {
            Some((2u8, "error: no readable scan roots were found"@))
        } else {
            None
        },
        Err(m) => Some((2u8, "error: "@ + m)),
    }
}

/// Decides whether the run stops before scanning, from the prepared roots.
pub fn roots_stop(roots: &Result<Vec<FsPath>, String>) -> (r: Option<(u8, String)>)
    ensures
        match r {
            Some((code, line)) => roots_stop_of(
                match roots {
                    Ok(v) => Ok(paths_model(v@)),
                    Err(m) => Err(m@),
                },
            ) == Some((code, line@)),
            None => roots_stop_of(
                match roots {
                    Ok(v) => Ok(paths_model(v@)),
                    Err(m) => Err(m@),
                },
            ) is None,
        },
{
    match roots {
        Ok(v) => if v.len() == 0 {
            Some((2, text_string("error: no readable scan roots were found")))
        } else {
            None
        },
        Err(m) => Some((2, error_line(m))),
    }
}

} // verus!
