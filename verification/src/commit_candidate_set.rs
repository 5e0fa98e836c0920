//! Which files a session touched, by the manifest of its snapshots.

use vstd::prelude::*;
use crate::io_failure::IoFailure;
use crate::text::{self, lines_of, path_join, sorted_distinct, trimmed};

verus! {

/// Where a session's manifest lies.
pub fn manifest_path(data_dir: &str, session_id: &str) -> (r: String)
    ensures
        r@ == text::join_path(
            text::join_path(text::join_path(data_dir@, "sessions"@), session_id@),
            "snapshot_paths.jsonl"@,
        ),
{
    let sessions = path_join(data_dir, "sessions");
    let session = path_join(sessions.as_str(), session_id);
    path_join(session.as_str(), "snapshot_paths.jsonl")
}

/// The lines that hold more than white space.
pub open spec fn entries(lines: Seq<Seq<char>>) -> Seq<Seq<char>>
    decreases lines.len(),
{
    if lines.len() == 0 {
        Seq::empty()
    } else if text::trim(lines.last()).len() > 0 {
        entries(lines.drop_last()).push(lines.last())
    } else {
        entries(lines.drop_last())
    }
}

/// Whether `parse` may find `found` in a line.
pub open spec fn may_find<F: Fn(&str) -> Option<String>>(
    parse: F,
    line: Seq<char>,
    found: Option<String>,
) -> bool {
    exists|l: &str| l@ == line && call_ensures(parse, (l,), found)
}

/// Whether `found` is what `parse` finds in the lines, one for one.
pub open spec fn finds<F: Fn(&str) -> Option<String>>(
    parse: F,
    lines: Seq<Seq<char>>,
    found: Seq<Option<String>>,
) -> bool {
    &&& found.len() == lines.len()
    &&& forall|i: int| 0 <= i < lines.len() ==> may_find(parse, lines[i], #[trigger] found[i])
}

/// Whether a path was found in some line.
pub open spec fn was_found(found: Seq<Option<String>>, path: Seq<char>) -> bool {
    exists|i: int| 0 <= i < found.len() && text::opt_text(#[trigger] found[i]) == Some(path)
}

/// The paths that a session touched, each once, in order. `manifest` is what
/// the manifest holds, and `parse` reads one line of it. Lines that `parse`
/// cannot read are passed over. A session without a manifest touched nothing.
pub fn distinct_touched_paths<F: Fn(&str) -> Option<String>>(
    manifest: Result<String, IoFailure>,
    parse: F,
) -> (r: Result<Vec<String>, IoFailure>)
    requires
        forall|l: &str| call_requires(parse, (l,)),
    ensures
        match manifest {
            Err(e) => if e.not_found {
                r matches Ok(v) && v@.len() == 0
            } else {
                r matches Err(f) && f == e
            },
            Ok(contents) => {
                &&& r is Ok
                &&& text::ascending(text::texts(r->Ok_0@))
                &&& exists|found: Seq<Option<String>>|
                    {
                        &&& #[trigger] finds(parse, entries(text::lines(contents@)), found)
                        &&& forall|p: Seq<char>|
                            #[trigger] text::texts(r->Ok_0@).contains(p) == was_found(found, p)
                    }
            },
        },
{
    match manifest {
        Err(e) => if e.not_found {
            Ok(Vec::new())
        } else {
            Err(e)
        },
        Ok(contents) => {
            let lines = lines_of(contents.as_str());
            let ghost all = text::lines(contents@);
            let ghost mut found: Seq<Option<String>> = Seq::empty();
            let mut paths: Vec<String> = Vec::new();
            let mut i: usize = 0;
            while i < lines.len()
                invariant
                    i <= lines.len(),
                    all == text::texts(lines@),
                    forall|l: &str| call_requires(parse, (l,)),
                    finds(parse, entries(all.take(i as int)), found),
                    forall|p: Seq<char>|
                        #[trigger] text::texts(paths@).contains(p) == was_found(found, p),
                decreases lines.len() - i,
            {
                let line = lines[i].as_str();
                let ghost before = entries(all.take(i as int));
                let ghost found_before = found;
                let ghost paths_before = text::texts(paths@);
                proof {
                    assert(all.take(i + 1).drop_last() =~= all.take(i as int));
                    assert(all.take(i + 1).last() == line@);
                }
                let t = trimmed(line);
                if !t.as_str().is_empty() {
                    let one = parse(line);
                    proof {
                        found = found_before.push(one);
                        assert(entries(all.take(i + 1)) == before.push(line@));
                        assert(may_find(parse, line@, one));
                        assert forall|k: int| 0 <= k < found.len() implies may_find(
                            parse,
                            before.push(line@)[k],
                            #[trigger] found[k],
                        ) by {
                            if k < found_before.len() {
                                assert(found[k] == found_before[k]);
                            }
                        }
                    }
                    match one {
                        Some(path) => {
                            paths.push(path);
                        },
                        None => {},
                    }
                    proof {
                        assert forall|p: Seq<char>| #[trigger] text::texts(paths@).contains(p)
                            == was_found(found, p) by {
                            lemma_found_after(found_before, one, p);
                            match one {
                                Some(path) => {
                                    assert(text::texts(paths@) =~= paths_before.push(path@));
                                    text::lemma_push_contains(paths_before, path@, p);
                                },
                                None => {
                                    assert(text::texts(paths@) == paths_before);
                                },
                            }
                            assert(paths_before.contains(p) == was_found(found_before, p));
                        }
                    }
                }
                i += 1;
            }
            assert(all.take(all.len() as int) =~= all);
            let r = sorted_distinct(&paths);
            proof {
                assert forall|p: Seq<char>| #[trigger] text::texts(r@).contains(p) == was_found(
                    found,
                    p,
                ) by {
                    assert(text::texts(paths@).contains(p) == was_found(found, p));
                }
            }
            Ok(r)
        },
    }
}

/// One more line adds what was found in it.
proof fn lemma_found_after(found: Seq<Option<String>>, one: Option<String>, p: Seq<char>)
    ensures
        was_found(found.push(one), p) == (was_found(found, p) || text::opt_text(one) == Some(p)),
{
    let more = found.push(one);
    if was_found(found, p) {
        let i = choose|i: int|
            0 <= i < found.len() && text::opt_text(#[trigger] found[i]) == Some(p);
        assert(text::opt_text(more[i]) == Some(p));
    }
    if text::opt_text(one) == Some(p) {
        assert(text::opt_text(more[found.len() as int]) == Some(p));
    }
    if was_found(more, p) {
        let i = choose|i: int| 0 <= i < more.len() && text::opt_text(#[trigger] more[i]) == Some(p);
        if i < found.len() {
            assert(text::opt_text(found[i]) == Some(p));
        }
    }
}

/// Every line that holds anything but white space is an entry, as it stands, and
/// no other line is.
pub proof fn law_every_line_that_is_not_blank_is_an_entry(lines: Seq<Seq<char>>)
    ensures
        entries(lines) == lines.filter(
            |l: Seq<char>| exists|i: int| 0 <= i < l.len() && !text::white(#[trigger] l[i]),
        ),
    decreases lines.len(),
{
    reveal(Seq::filter);
    if lines.len() > 0 {
        law_every_line_that_is_not_blank_is_an_entry(lines.drop_last());
        text::law_blank_texts_trim_to_nothing(lines.last());
    }
}

/// Every entry is read, in its order, and every path that was read in any of them
/// counts.
pub proof fn law_every_entry_is_read<F: Fn(&str) -> Option<String>>(
    parse: F,
    lines: Seq<Seq<char>>,
    found: Seq<Option<String>>,
    i: int,
)
    requires
        finds(parse, lines, found),
        0 <= i < lines.len(),
    ensures
        found.len() == lines.len(),
        exists|l: &str| l@ == lines[i] && call_ensures(parse, (l,), found[i]),
        found[i] matches Some(path) ==> was_found(found, path@),
        forall|p: Seq<char>| #[trigger]
            was_found(found, p) ==> exists|k: int|
                0 <= k < found.len() && (#[trigger] found[k]) is Some && found[k]->0@ == p,
{
    assert(may_find(parse, lines[i], found[i]));
    if let Some(path) = found[i] {
        assert(text::opt_text(found[i]) == Some(path@));
    }
    assert forall|p: Seq<char>| #[trigger] was_found(found, p) implies exists|k: int|
        0 <= k < found.len() && (#[trigger] found[k]) is Some && found[k]->0@ == p by {
        let k = choose|k: int| 0 <= k < found.len() && text::opt_text(#[trigger] found[k]) == Some(p);
        assert(found[k] is Some && found[k]->0@ == p);
    }
}

} // verus!
