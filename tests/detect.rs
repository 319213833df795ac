use git_deps::{
    blame_anchor, is_fixup, AttributionEpoch, BlameMap, CommitId, CommitSet, Delta, Detector,
    Hunk, HunkSide, Options, Resolver,
};

fn id(n: u32) -> CommitId {
    CommitId::new(0, 0, n)
}

fn hunk(old_start: u32, old_lines: u32, new_start: u32, new_lines: u32) -> Hunk {
    Hunk { old_start, old_lines, new_start, new_lines }
}

fn delta(path: &str, added: bool, hunks: Vec<Hunk>) -> Delta {
    Delta { old_id_zero: added, old_path: path.as_bytes().to_vec(), hunks }
}

/// Resolves one parent's deltas against the given blame results by path.
fn resolve(deltas: &[Delta], blames: &[(&str, Vec<CommitId>)], side: HunkSide) -> Vec<CommitId> {
    let mut r = Resolver::new(side);
    for d in deltas {
        if r.needs_blame(d) {
            let (_, lines) = blames
                .iter()
                .find(|(p, _)| p.as_bytes() == d.old_path.as_slice())
                .expect("blame for path");
            r.add_blame(d.old_path.clone(), BlameMap::new(lines.clone()));
        }
        assert!(r.absorb(d));
    }
    r.dependencies()
}

/// Runs detection for `commit` with the candidates of each parent given by
/// `found` and the message of each commit by `messages`.
fn detect(
    commit: CommitId,
    parents: Vec<CommitId>,
    found: &[(CommitId, Vec<CommitId>)],
    messages: &[(CommitId, &str)],
    seen: &mut CommitSet,
    options: &Options,
) -> Vec<CommitId> {
    let mut d = Detector::new(commit, parents, seen, options);
    while let Some(parent) = d.next_parent() {
        let ids = found
            .iter()
            .find(|(p, _)| *p == parent)
            .map(|(_, ids)| ids.clone())
            .unwrap_or_default();
        for c in ids {
            if d.visit(seen, c) {
                let msg = messages.iter().find(|(m, _)| *m == c).map(|(_, s)| *s).unwrap_or("change");
                d.classify(msg.as_bytes());
            }
        }
    }
    d.dependencies()
}

/// Blame of a file of `len` lines, all by `other` but lines `from..=to` by `by`.
fn blame_with(len: usize, other: CommitId, from: usize, to: usize, by: CommitId) -> Vec<CommitId> {
    (1..=len).map(|l| if l >= from && l <= to { by } else { other }).collect()
}

#[test]
fn modified_lines_depend_on_their_author() {
    let (c, p, a, b) = (id(1), id(2), id(3), id(4));
    let deltas = vec![delta("f.txt", false, vec![hunk(10, 3, 10, 3)])];
    let found = resolve(&deltas, &[("f.txt", blame_with(20, b, 10, 12, a))], HunkSide::PreChange);
    assert_eq!(found, vec![a]);
    let mut seen = CommitSet::new();
    let deps = detect(c, vec![p], &[(p, found)], &[], &mut seen, &Options { ignore_fixups: false });
    assert_eq!(deps, vec![a]);
}

#[test]
fn added_file_has_no_dependencies() {
    let (c, p, b) = (id(1), id(2), id(4));
    let deltas = vec![delta("g.txt", true, vec![hunk(0, 0, 1, 5)])];
    let found = resolve(&deltas, &[("g.txt", blame_with(5, b, 1, 5, b))], HunkSide::PreChange);
    assert!(found.is_empty());
    let mut seen = CommitSet::new();
    let deps = detect(c, vec![p], &[(p, found)], &[], &mut seen, &Options { ignore_fixups: false });
    assert!(deps.is_empty());
}

#[test]
fn added_file_contributes_nothing_beside_a_modified_one() {
    let (a, b, x) = (id(3), id(4), id(5));
    let deltas = vec![
        delta("new.txt", true, vec![hunk(1, 4, 1, 4)]),
        delta("f.txt", false, vec![hunk(2, 1, 2, 1)]),
    ];
    let blames = [("new.txt", vec![x, x, x, x]), ("f.txt", blame_with(4, b, 2, 2, a))];
    assert_eq!(resolve(&deltas, &blames, HunkSide::PreChange), vec![a]);
}

#[test]
fn fixup_is_transparent_with_the_flag() {
    let (c, p, f, a) = (id(1), id(2), id(6), id(3));
    let found = [(p, vec![f]), (f, vec![a])];
    let messages = [(f, "fixup! Add feature"), (a, "Add feature")];
    let mut seen = CommitSet::new();
    let deps = detect(c, vec![p], &found, &messages, &mut seen, &Options { ignore_fixups: true });
    assert_eq!(deps, vec![a]);
    assert!(seen.contains(f));
}

#[test]
fn fixup_is_reported_without_the_flag() {
    let (c, p, f, a) = (id(1), id(2), id(6), id(3));
    let found = [(p, vec![f]), (f, vec![a])];
    let messages = [(f, "fixup! Add feature"), (a, "Add feature")];
    let mut seen = CommitSet::new();
    let deps = detect(c, vec![p], &found, &messages, &mut seen, &Options { ignore_fixups: false });
    assert_eq!(deps, vec![f]);
}

#[test]
fn fixup_chain_collapses_onto_the_real_commit() {
    let (c, p, f1, f2, a) = (id(1), id(2), id(6), id(7), id(3));
    let found = [(p, vec![f2]), (f2, vec![f1]), (f1, vec![a])];
    let messages = [(f1, "fixup! A"), (f2, "fixup! fixup! A"), (a, "A")];
    let mut seen = CommitSet::new();
    let deps = detect(c, vec![p], &found, &messages, &mut seen, &Options { ignore_fixups: true });
    assert_eq!(deps, vec![a]);
}

#[test]
fn no_parents_no_dependencies() {
    let mut seen = CommitSet::new();
    let deps = detect(id(1), vec![], &[], &[], &mut seen, &Options { ignore_fixups: true });
    assert!(deps.is_empty());
    assert_eq!(seen.len(), 0);
}

#[test]
fn commit_is_not_its_own_dependency() {
    let (c, p1, p2, a, b) = (id(1), id(2), id(8), id(3), id(4));
    let found = [(p1, vec![a, b]), (p2, vec![b])];
    let mut seen = CommitSet::new();
    let deps = detect(c, vec![p1, p2], &found, &[], &mut seen, &Options { ignore_fixups: false });
    assert!(!deps.contains(&c));
    // the last parent is resolved first
    assert_eq!(deps, vec![b, a]);
}

#[test]
fn batch_shares_the_seen_set() {
    let (c1, c2, p1, p2, a, b, x) = (id(1), id(9), id(2), id(8), id(3), id(4), id(5));
    let mut seen = CommitSet::new();
    let opts = Options { ignore_fixups: false };
    let d1 = detect(c1, vec![p1], &[(p1, vec![a, b])], &[], &mut seen, &opts);
    let d2 = detect(c2, vec![p2], &[(p2, vec![b, x, a])], &[], &mut seen, &opts);
    assert_eq!(d1, vec![a, b]);
    assert_eq!(d2, vec![x]);
    assert_eq!(seen.to_vec(), vec![a, b, x]);
}

#[test]
fn seen_dependencies_give_empty_result() {
    let (c, p, a, b) = (id(1), id(2), id(3), id(4));
    let found = [(p, vec![a, b])];
    let opts = Options { ignore_fixups: false };
    let mut seen = CommitSet::new();
    assert_eq!(detect(c, vec![p], &found, &[], &mut seen, &opts), vec![a, b]);
    assert!(detect(c, vec![p], &found, &[], &mut seen, &opts).is_empty());
}

#[test]
fn visit_marks_seen_before_classify() {
    let (c, p, a) = (id(1), id(2), id(3));
    let mut seen = CommitSet::new();
    let mut d = Detector::new(c, vec![p], &seen, &Options { ignore_fixups: true });
    assert_eq!(d.next_parent(), Some(p));
    assert!(d.visit(&mut seen, a));
    assert!(d.awaits_message());
    assert!(seen.contains(a));
    d.classify(b"fixup! something");
    assert!(!d.awaits_message());
    assert!(d.dependencies().is_empty());
    assert_eq!(d.next_parent(), Some(a));
    assert_eq!(d.next_parent(), None);
}

#[test]
fn classify_without_candidate_does_nothing() {
    let mut seen = CommitSet::new();
    let mut d = Detector::new(id(1), vec![], &seen, &Options { ignore_fixups: false });
    d.classify(b"anything");
    assert!(d.dependencies().is_empty());
    assert!(d.visit(&mut seen, id(3)));
    assert!(d.awaits_message());
}

#[test]
fn fixup_prefix_is_literal() {
    assert!(is_fixup(b"fixup! x"));
    assert!(is_fixup(b"fixup! "));
    assert!(!is_fixup(b"fixup!"));
    assert!(!is_fixup(b"fixup!x"));
    assert!(!is_fixup(b"Fixup! x"));
    assert!(!is_fixup(b"squash! x"));
    assert!(!is_fixup(b""));
}

#[test]
fn blame_lines_outside_the_file_are_skipped() {
    let (a, b) = (id(3), id(4));
    let m = BlameMap::new(vec![a, b]);
    assert_eq!(m.get_line(0), None);
    assert_eq!(m.get_line(1), Some(a));
    assert_eq!(m.get_line(2), Some(b));
    assert_eq!(m.get_line(3), None);
    let deltas = vec![delta("f.txt", false, vec![hunk(2, 10, 2, 1)])];
    assert_eq!(resolve(&deltas, &[("f.txt", vec![a, b])], HunkSide::PreChange), vec![b]);
}

#[test]
fn large_hunk_bounds_do_not_overflow() {
    let a = id(3);
    let deltas = vec![delta("f.txt", false, vec![hunk(u32::MAX - 1, 3, 1, 1)])];
    let mut r = Resolver::new(HunkSide::PreChange);
    r.add_blame(b"f.txt".to_vec(), BlameMap::new(vec![a]));
    assert!(r.absorb(&deltas[0]));
    assert!(r.dependencies().is_empty());
}

#[test]
fn post_change_side_uses_new_lines() {
    let (a, b) = (id(3), id(4));
    let deltas = vec![delta("f.txt", false, vec![hunk(1, 1, 3, 1)])];
    let blames = [("f.txt", vec![a, a, b])];
    assert_eq!(resolve(&deltas, &blames, HunkSide::PreChange), vec![a]);
    assert_eq!(resolve(&deltas, &blames, HunkSide::PostChange), vec![b]);
}

#[test]
fn blame_is_kept_per_path() {
    let (a, b) = (id(3), id(4));
    let mut r = Resolver::new(HunkSide::PreChange);
    let d = delta("f.txt", false, vec![hunk(1, 1, 1, 1)]);
    assert!(r.needs_blame(&d));
    assert!(!r.absorb(&d));
    r.add_blame(b"f.txt".to_vec(), BlameMap::new(vec![a]));
    assert!(!r.needs_blame(&d));
    // a second result for the same path does not replace the first
    r.add_blame(b"f.txt".to_vec(), BlameMap::new(vec![b]));
    assert!(r.absorb(&d));
    assert_eq!(r.dependencies(), vec![a]);
    assert!(!r.needs_blame(&delta("g.txt", true, vec![hunk(1, 1, 1, 1)])));
    assert!(!r.needs_blame(&delta("g.txt", false, vec![])));
    assert!(r.absorb(&delta("g.txt", false, vec![])));
    assert!(r.needs_blame(&delta("g.txt", false, vec![hunk(1, 1, 1, 1)])));
}

#[test]
fn duplicate_attributions_are_collapsed() {
    let (a, b) = (id(3), id(4));
    let deltas = vec![
        delta("f.txt", false, vec![hunk(1, 2, 1, 2), hunk(4, 2, 4, 2)]),
        delta("h.txt", false, vec![hunk(1, 1, 1, 1)]),
    ];
    let blames = [("f.txt", vec![a, b, b, a, a]), ("h.txt", vec![b])];
    assert_eq!(resolve(&deltas, &blames, HunkSide::PreChange), vec![a, b]);
}

#[test]
fn attribution_epoch_anchor() {
    let p = id(2);
    assert_eq!(blame_anchor(AttributionEpoch::PinnedToParent, p), Some(p));
    assert_eq!(blame_anchor(AttributionEpoch::LiveTip, p), None);
    assert_eq!(AttributionEpoch::default(), AttributionEpoch::PinnedToParent);
    assert_eq!(HunkSide::default(), HunkSide::PreChange);
}

#[test]
fn commit_set_keeps_insertion_order() {
    let mut s = CommitSet::new();
    assert!(s.insert(id(5)));
    assert!(s.insert(id(1)));
    assert!(!s.insert(id(5)));
    assert_eq!(s.len(), 2);
    assert_eq!(s.to_vec(), vec![id(5), id(1)]);
    assert!(s.contains(id(1)));
    assert!(!s.contains(id(2)));
    assert_ne!(CommitId::new(1, 0, 0), CommitId::new(0, 1, 0));
}
