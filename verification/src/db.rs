//! The duplicate-detection engine: the content index, the rule cache, and
//! the resolution step that turns a duplicate into a file-system action.

use vstd::prelude::*;
use vstd::string::*;
use crate::digest::{digest_of, sha256_hex};
use crate::paths::{join_spec, name_spec, parent_spec, file_name_of, join_path, parent_of, str_eq};
use crate::rule::{Rule, RuleModel};

verus! {

/// A file-system action that resolves one duplicate pair; the caller
/// performs it.
#[derive(Clone, Debug, PartialEq, Eq)]
pub enum FsAction {
    /// Say that `duplicate` repeats `original`; nothing on disk changes.
    Report { duplicate: String, original: String },
    /// Remove the file at `victim`.
    Remove { victim: String },
    /// Rename the file at `source` to `dest`.
    Relocate { source: String, dest: String },
}

/// The mathematical shape of an [`FsAction`].
pub enum FsActionModel {
    Report { duplicate: Seq<char>, original: Seq<char> },
    Remove { victim: Seq<char> },
    Relocate { source: Seq<char>, dest: Seq<char> },
}

impl View for FsAction {
    type V = FsActionModel;

    open spec fn view(&self) -> FsActionModel {
        match self {
            FsAction::Report { duplicate, original } => FsActionModel::Report {
                duplicate: duplicate@,
                original: original@,
            },
            FsAction::Remove { victim } => FsActionModel::Remove { victim: victim@ },
            FsAction::Relocate { source, dest } => FsActionModel::Relocate {
                source: source@,
                dest: dest@,
            },
        }
    }
}

/// What processing one file led to.
#[derive(Clone, Debug, PartialEq, Eq)]
pub enum Outcome {
    /// The content was new; its digest now points at this file.
    Recorded,
    /// The content repeats `existing`, and no rule is cached for the two
    /// parent directories: the caller must elicit one.
    NeedRule { new_parent: String, existing_parent: String, existing: String },
    /// The content repeats a recorded file, and the cached rule fixed
    /// `action`.
    Resolved { action: FsAction },
}

/// The mathematical shape of an [`Outcome`].
pub enum OutcomeModel {
    Recorded,
    NeedRule { new_parent: Seq<char>, existing_parent: Seq<char>, existing: Seq<char> },
    Resolved { action: FsActionModel },
}

impl View for Outcome {
    type V = OutcomeModel;

    open spec fn view(&self) -> OutcomeModel {
        match self {
            Outcome::Recorded => OutcomeModel::Recorded,
            Outcome::NeedRule { new_parent, existing_parent, existing } => OutcomeModel::NeedRule {
                new_parent: new_parent@,
                existing_parent: existing_parent@,
                existing: existing@,
            },
            Outcome::Resolved { action } => OutcomeModel::Resolved { action: action@ },
        }
    }
}

/// No two index entries carry the same digest.
pub open spec fn keys_unique(entries: Seq<(Seq<char>, Seq<char>)>) -> bool {
    forall|i: int, j: int|
        0 <= i < j < entries.len() ==> (#[trigger] entries[i]).0 != (#[trigger] entries[j]).0
}

/// The path recorded under digest `d`, if any.
pub open spec fn index_lookup(entries: Seq<(Seq<char>, Seq<char>)>, d: Seq<char>) -> Option<
    Seq<char>,
> {
    if exists|i: int| 0 <= i < entries.len() && (#[trigger] entries[i]).0 == d {
        let i = choose|i: int| 0 <= i < entries.len() && (#[trigger] entries[i]).0 == d;
        Some(entries[i].1)
    } else {
        None
    }
}

/// Whether the unordered pair `{x, y}` is the unordered pair `{a, b}`.
pub open spec fn pair_matches(x: Seq<char>, y: Seq<char>, a: Seq<char>, b: Seq<char>) -> bool {
    (x == a && y == b) || (x == b && y == a)
}

/// No two cache entries carry the same unordered directory pair.
pub open spec fn pairs_unique(entries: Seq<(Seq<char>, Seq<char>, RuleModel)>) -> bool {
    forall|i: int, j: int|
        0 <= i < j < entries.len() ==> !pair_matches(
            (#[trigger] entries[i]).0,
            entries[i].1,
            (#[trigger] entries[j]).0,
            entries[j].1,
        )
}

/// The rule cached for the unordered pair `{a, b}`, if any.
pub open spec fn rules_lookup(
    entries: Seq<(Seq<char>, Seq<char>, RuleModel)>,
    a: Seq<char>,
    b: Seq<char>,
) -> Option<RuleModel> {
    if exists|i: int|
        0 <= i < entries.len() && pair_matches((#[trigger] entries[i]).0, entries[i].1, a, b) {
        let i = choose|i: int|
            0 <= i < entries.len() && pair_matches((#[trigger] entries[i]).0, entries[i].1, a, b);
        Some(entries[i].2)
    } else {
        None
    }
}

/// With unique digests, the lookup answers from whichever entry holds the
/// digest.
pub proof fn lemma_index_lookup_is_at(entries: Seq<(Seq<char>, Seq<char>)>, d: Seq<char>)
    requires
        keys_unique(entries),
    ensures
        forall|i: int|
            0 <= i < entries.len() && (#[trigger] entries[i]).0 == d ==> index_lookup(entries, d)
                == Some(entries[i].1),
{
    assert forall|i: int|
        0 <= i < entries.len() && (#[trigger] entries[i]).0 == d implies index_lookup(entries, d)
        == Some(entries[i].1) by {
        let c = choose|i: int| 0 <= i < entries.len() && (#[trigger] entries[i]).0 == d;
        assert(0 <= c < entries.len() && entries[c].0 == d);
        if c != i {
            assert(entries[c].0 != entries[i].0);
        }
    }
}

/// Recording a new digest keeps the digests unique, makes the new path the
/// one recorded for it, and answers every other digest as before.
pub proof fn lemma_index_lookup_push(
    entries: Seq<(Seq<char>, Seq<char>)>,
    d: Seq<char>,
    p: Seq<char>,
)
    requires
        keys_unique(entries),
        index_lookup(entries, d) is None,
    ensures
        keys_unique(entries.push((d, p))),
        index_lookup(entries.push((d, p)), d) == Some(p),
        forall|d2: Seq<char>|
            d2 != d ==> #[trigger] index_lookup(entries.push((d, p)), d2) == index_lookup(
                entries,
                d2,
            ),
{
    let pushed = entries.push((d, p));
    assert forall|i: int| 0 <= i < entries.len() implies (#[trigger] entries[i]).0 != d by {
        if entries[i].0 == d {
            assert(exists|k: int| 0 <= k < entries.len() && (#[trigger] entries[k]).0 == d);
        }
    }
    assert forall|i: int, j: int| 0 <= i < j < pushed.len() implies (#[trigger] pushed[i]).0 != (
    #[trigger] pushed[j]).0 by {
        assert(pushed[i] == entries[i]);
        if j < entries.len() {
            assert(pushed[j] == entries[j]);
        } else {
            assert(pushed[j].0 == d);
        }
    }
    assert(pushed[entries.len() as int].0 == d);
    lemma_index_lookup_is_at(pushed, d);
    assert(index_lookup(pushed, d) == Some(p));
    assert forall|d2: Seq<char>| d2 != d implies #[trigger] index_lookup(pushed, d2)
        == index_lookup(entries, d2) by {
        lemma_index_lookup_is_at(pushed, d2);
        lemma_index_lookup_is_at(entries, d2);
        if exists|k: int| 0 <= k < entries.len() && (#[trigger] entries[k]).0 == d2 {
            let ke = choose|k: int| 0 <= k < entries.len() && (#[trigger] entries[k]).0 == d2;
            assert(pushed[ke] == entries[ke]);
            assert(index_lookup(pushed, d2) == Some(entries[ke].1));
            assert(index_lookup(entries, d2) == Some(entries[ke].1));
        } else {
            assert forall|k: int| 0 <= k < pushed.len() implies (#[trigger] pushed[k]).0 != d2 by {
                if k < entries.len() {
                    assert(pushed[k] == entries[k]);
                    if entries[k].0 == d2 {
                        assert(exists|m: int|
                            0 <= m < entries.len() && (#[trigger] entries[m]).0 == d2);
                    }
                } else {
                    assert(pushed[k].0 == d);
                }
            }
            assert(index_lookup(pushed, d2) is None);
            assert(index_lookup(entries, d2) is None);
        }
    }
}

/// With unique pairs, the cache answers from whichever entry matches the
/// pair.
pub proof fn lemma_rules_lookup_is_at(
    entries: Seq<(Seq<char>, Seq<char>, RuleModel)>,
    a: Seq<char>,
    b: Seq<char>,
)
    requires
        pairs_unique(entries),
    ensures
        forall|i: int|
            0 <= i < entries.len() && pair_matches((#[trigger] entries[i]).0, entries[i].1, a, b)
                ==> rules_lookup(entries, a, b) == Some(entries[i].2),
{
    assert forall|i: int|
        0 <= i < entries.len() && pair_matches(
            (#[trigger] entries[i]).0,
            entries[i].1,
            a,
            b,
        ) implies rules_lookup(entries, a, b) == Some(entries[i].2) by {
        let c = choose|i: int|
            0 <= i < entries.len() && pair_matches((#[trigger] entries[i]).0, entries[i].1, a, b);
        assert(0 <= c < entries.len() && pair_matches(entries[c].0, entries[c].1, a, b));
        if c != i {
            assert(!pair_matches(entries[c].0, entries[c].1, entries[i].0, entries[i].1));
        }
    }
}

/// The cache treats its pairs as unordered: both orders answer alike.
pub proof fn lemma_rules_lookup_symmetric(
    entries: Seq<(Seq<char>, Seq<char>, RuleModel)>,
    a: Seq<char>,
    b: Seq<char>,
)
    requires
        pairs_unique(entries),
    ensures
        rules_lookup(entries, a, b) == rules_lookup(entries, b, a),
{
    lemma_rules_lookup_is_at(entries, a, b);
    lemma_rules_lookup_is_at(entries, b, a);
    if exists|i: int|
        0 <= i < entries.len() && pair_matches((#[trigger] entries[i]).0, entries[i].1, a, b) {
        let c = choose|i: int|
            0 <= i < entries.len() && pair_matches((#[trigger] entries[i]).0, entries[i].1, a, b);
        assert(pair_matches(entries[c].0, entries[c].1, b, a));
        assert(rules_lookup(entries, a, b) == Some(entries[c].2));
        assert(rules_lookup(entries, b, a) == Some(entries[c].2));
    } else {
        if exists|i: int|
            0 <= i < entries.len() && pair_matches((#[trigger] entries[i]).0, entries[i].1, b, a) {
            let c = choose|i: int|
                0 <= i < entries.len() && pair_matches(
                    (#[trigger] entries[i]).0,
                    entries[i].1,
                    b,
                    a,
                );
            assert(pair_matches(entries[c].0, entries[c].1, a, b));
        }
        assert(rules_lookup(entries, a, b) is None);
        assert(rules_lookup(entries, b, a) is None);
    }
}

/// Caching a rule for a new pair keeps the pairs unique, makes it the rule
/// for that pair in either order, and answers every other pair as before.
pub proof fn lemma_rules_lookup_push(
    entries: Seq<(Seq<char>, Seq<char>, RuleModel)>,
    a: Seq<char>,
    b: Seq<char>,
    r: RuleModel,
)
    requires
        pairs_unique(entries),
        rules_lookup(entries, a, b) is None,
    ensures
        pairs_unique(entries.push((a, b, r))),
        forall|x: Seq<char>, y: Seq<char>|
            pair_matches(a, b, x, y) ==> #[trigger] rules_lookup(entries.push((a, b, r)), x, y)
                == Some(r),
        forall|x: Seq<char>, y: Seq<char>|
            !pair_matches(a, b, x, y) ==> #[trigger] rules_lookup(entries.push((a, b, r)), x, y)
                == rules_lookup(entries, x, y),
{
    let pushed = entries.push((a, b, r));
    assert forall|i: int| 0 <= i < entries.len() implies !pair_matches(
        (#[trigger] entries[i]).0,
        entries[i].1,
        a,
        b,
    ) by {
        if pair_matches(entries[i].0, entries[i].1, a, b) {
            assert(exists|k: int|
                0 <= k < entries.len() && pair_matches(
                    (#[trigger] entries[k]).0,
                    entries[k].1,
                    a,
                    b,
                ));
        }
    }
    assert forall|i: int, j: int| 0 <= i < j < pushed.len() implies !pair_matches(
        (#[trigger] pushed[i]).0,
        pushed[i].1,
        (#[trigger] pushed[j]).0,
        pushed[j].1,
    ) by {
        assert(pushed[i] == entries[i]);
        if j < entries.len() {
            assert(pushed[j] == entries[j]);
        } else {
            assert(pushed[j] == (a, b, r));
        }
    }
    assert forall|x: Seq<char>, y: Seq<char>| pair_matches(a, b, x, y) implies #[trigger] rules_lookup(
        pushed,
        x,
        y,
    ) == Some(r) by {
        lemma_rules_lookup_is_at(pushed, x, y);
        assert(pushed[entries.len() as int] == (a, b, r));
        assert(pair_matches(pushed[entries.len() as int].0, pushed[entries.len() as int].1, x, y));
    }
    assert forall|x: Seq<char>, y: Seq<char>| !pair_matches(a, b, x, y) implies #[trigger] rules_lookup(
        pushed,
        x,
        y,
    ) == rules_lookup(entries, x, y) by {
        lemma_rules_lookup_is_at(pushed, x, y);
        lemma_rules_lookup_is_at(entries, x, y);
        if exists|i: int|
            0 <= i < entries.len() && pair_matches((#[trigger] entries[i]).0, entries[i].1, x, y) {
            let ke = choose|i: int|
                0 <= i < entries.len() && pair_matches(
                    (#[trigger] entries[i]).0,
                    entries[i].1,
                    x,
                    y,
                );
            assert(pushed[ke] == entries[ke]);
            assert(rules_lookup(pushed, x, y) == Some(entries[ke].2));
            assert(rules_lookup(entries, x, y) == Some(entries[ke].2));
        } else {
            assert forall|k: int| 0 <= k < pushed.len() implies !pair_matches(
                (#[trigger] pushed[k]).0,
                pushed[k].1,
                x,
                y,
            ) by {
                if k < entries.len() {
                    assert(pushed[k] == entries[k]);
                    if pair_matches(entries[k].0, entries[k].1, x, y) {
                        assert(exists|m: int|
                            0 <= m < entries.len() && pair_matches(
                                (#[trigger] entries[m]).0,
                                entries[m].1,
                                x,
                                y,
                            ));
                    }
                } else {
                    assert(pushed[k] == (a, b, r));
                }
            }
            assert(rules_lookup(pushed, x, y) is None);
            assert(rules_lookup(entries, x, y) is None);
        }
    }
}

/// The action that `rule` prescribes when `duplicate` repeats `original`:
/// report the pair, remove the copy under the losing directory, or move
/// that copy into the rule's destination under its own file name.
pub open spec fn action_of(
    rule: RuleModel,
    duplicate: Seq<char>,
    original: Seq<char>,
) -> FsActionModel {
    match rule {
        RuleModel::Print => FsActionModel::Report { duplicate, original },
        RuleModel::Delete(loser) => FsActionModel::Remove {
            victim: if loser == parent_spec(duplicate) {
                duplicate
            } else {
                original
            },
        },
        RuleModel::Move(loser, dest) => {
            let source = if loser == parent_spec(duplicate) {
                duplicate
            } else {
                original
            };
            FsActionModel::Relocate { source, dest: join_spec(dest, name_spec(source)) }
        },
    }
}

/// The duplicate-detection engine: the content index (digest to first-seen
/// path) and the rule cache (unordered directory pair to rule).
pub struct HashDB {
    index_entries: Vec<(String, String)>,
    rule_entries: Vec<(String, String, Rule)>,
}

impl HashDB {
    /// The content index as a sequence of (digest, path) entries, in the
    /// order they were recorded.
    pub closed spec fn index_model(self) -> Seq<(Seq<char>, Seq<char>)> {
        self.index_entries@.map_values(|e: (String, String)| (e.0@, e.1@))
    }

    /// The rule cache as a sequence of (directory, directory, rule)
    /// entries, in the order they were cached.
    pub closed spec fn rules_model(self) -> Seq<(Seq<char>, Seq<char>, RuleModel)> {
        self.rule_entries@.map_values(|e: (String, String, Rule)| (e.0@, e.1@, e.2@))
    }

    /// The path recorded for digest `d`, if any.
    pub open spec fn digest_lookup(self, d: Seq<char>) -> Option<Seq<char>> {
        index_lookup(self.index_model(), d)
    }

    /// The rule cached for the unordered directory pair `{a, b}`, if any.
    pub open spec fn rule_for(self, a: Seq<char>, b: Seq<char>) -> Option<RuleModel> {
        rules_lookup(self.rules_model(), a, b)
    }

    /// Digests are recorded at most once, and no two cache entries carry
    /// the same unordered directory pair.
    pub open spec fn wf(self) -> bool {
        keys_unique(self.index_model()) && pairs_unique(self.rules_model())
    }

    /// A fresh engine: an empty index and no cached rules.
    pub fn new() -> (r: HashDB)
        ensures
            r.wf(),
            r.index_model() == Seq::<(Seq<char>, Seq<char>)>::empty(),
            r.rules_model() == Seq::<(Seq<char>, Seq<char>, RuleModel)>::empty(),
    {
        let r = HashDB { index_entries: Vec::new(), rule_entries: Vec::new() };
        proof {
            assert(r.index_model() =~= Seq::<(Seq<char>, Seq<char>)>::empty());
            assert(r.rules_model() =~= Seq::<(Seq<char>, Seq<char>, RuleModel)>::empty());
        }
        r
    }

    /// The first-seen path recorded for `digest`, if any.
    pub fn find(&self, digest: &str) -> (r: Option<String>)
        requires
            self.wf(),
        ensures
            (match r {
                Some(p) => self.digest_lookup(digest@) == Some(p@),
                None => self.digest_lookup(digest@) is None,
            }),
    {
        let n: usize = self.index_entries.len();
        let mut i: usize = 0;
        while i < n
            invariant
                i <= n,
                n == self.index_entries@.len(),
                self.wf(),
                forall|j: int| 0 <= j < i ==> (#[trigger] self.index_model()[j]).0 != digest@,
            decreases n - i,
        {
            if str_eq(self.index_entries[i].0.as_str(), digest) {
                proof {
                    lemma_index_lookup_is_at(self.index_model(), digest@);
                    assert(self.index_model()[i as int].0 == digest@);
                }
                return Some(self.index_entries[i].1.clone());
            }
            proof {
                assert(self.index_model()[i as int].0 == self.index_entries@[i as int].0@);
            }
            i = i + 1;
        }
        proof {
            if exists|k: int|
                0 <= k < self.index_model().len() && (#[trigger] self.index_model()[k]).0
                    == digest@ {
                let k = choose|k: int|
                    0 <= k < self.index_model().len() && (#[trigger] self.index_model()[k]).0
                        == digest@;
                assert(false);
            }
        }
        None
    }

    /// The cached rule for the unordered pair `{a, b}`, if any.
    fn rule_lookup<'a>(&'a self, a: &str, b: &str) -> (r: Option<&'a Rule>)
        requires
            self.wf(),
        ensures
            (match r {
                Some(rule) => self.rule_for(a@, b@) == Some(rule@),
                None => self.rule_for(a@, b@) is None,
            }),
    {
        let n: usize = self.rule_entries.len();
        let mut i: usize = 0;
        while i < n
            invariant
                i <= n,
                n == self.rule_entries@.len(),
                self.wf(),
                forall|j: int|
                    0 <= j < i ==> !pair_matches(
                        (#[trigger] self.rules_model()[j]).0,
                        self.rules_model()[j].1,
                        a@,
                        b@,
                    ),
            decreases n - i,
        {
            let x = self.rule_entries[i].0.as_str();
            let y = self.rule_entries[i].1.as_str();
            let hit = (str_eq(x, a) && str_eq(y, b)) || (str_eq(x, b) && str_eq(y, a));
            proof {
                assert(self.rules_model()[i as int] == (
                    self.rule_entries@[i as int].0@,
                    self.rule_entries@[i as int].1@,
                    self.rule_entries@[i as int].2@,
                ));
            }
            if hit {
                proof {
                    lemma_rules_lookup_is_at(self.rules_model(), a@, b@);
                }
                return Some(&self.rule_entries[i].2);
            }
            i = i + 1;
        }
        proof {
            if exists|k: int|
                0 <= k < self.rules_model().len() && pair_matches(
                    (#[trigger] self.rules_model()[k]).0,
                    self.rules_model()[k].1,
                    a@,
                    b@,
                ) {
                let k = choose|k: int|
                    0 <= k < self.rules_model().len() && pair_matches(
                        (#[trigger] self.rules_model()[k]).0,
                        self.rules_model()[k].1,
                        a@,
                        b@,
                    );
                assert(false);
            }
        }
        None
    }
}

/// Builds the file-system action that `rule` prescribes when the file at
/// `path` repeats the one at `existing`; see [`action_of`].
pub fn compute_action(rule: &Rule, path: &str, existing: &str) -> (r: FsAction)
    ensures
        r@ == action_of(rule@, path@, existing@),
{
    match rule {
        Rule::Print => FsAction::Report {
            duplicate: String::from_str(path),
            original: String::from_str(existing),
        },
        Rule::Delete(loser) => {
            let new_parent = parent_of(path);
            if str_eq(loser.as_str(), new_parent.as_str()) {
                FsAction::Remove { victim: String::from_str(path) }
            } else {
                FsAction::Remove { victim: String::from_str(existing) }
            }
        },
        Rule::Move(loser, dest) => {
            let new_parent = parent_of(path);
            let source = if str_eq(loser.as_str(), new_parent.as_str()) {
                path
            } else {
                existing
            };
            let name = file_name_of(source);
            FsAction::Relocate {
                source: String::from_str(source),
                dest: join_path(dest.as_str(), name.as_str()),
            }
        },
    }
}

/// How one processing step relates the engine's state after (`post`) to
/// its state before (`pre`): a new digest is recorded under `path`; a
/// known digest either asks for a rule for the two parent directories or
/// resolves to the cached rule's action. The rule cache never changes, and
/// the index changes only by recording a new digest.
pub open spec fn step_post(
    pre: HashDB,
    post: HashDB,
    path: Seq<char>,
    digest: Seq<char>,
    r: OutcomeModel,
) -> bool {
    &&& post.rules_model() == pre.rules_model()
    &&& match r {
        OutcomeModel::Recorded => {
            &&& pre.digest_lookup(digest) is None
            &&& post.index_model() == pre.index_model().push((digest, path))
        },
        OutcomeModel::NeedRule { new_parent, existing_parent, existing } => {
            &&& post.index_model() == pre.index_model()
            &&& pre.digest_lookup(digest) == Some(existing)
            &&& new_parent == parent_spec(path)
            &&& existing_parent == parent_spec(existing)
            &&& pre.rule_for(new_parent, existing_parent) is None
        },
        OutcomeModel::Resolved { action } => {
            &&& post.index_model() == pre.index_model()
            &&& pre.digest_lookup(digest) is Some
            &&& {
                let existing = pre.digest_lookup(digest)->0;
                let rule = pre.rule_for(parent_spec(path), parent_spec(existing));
                &&& rule is Some
                &&& action == action_of(rule->0, path, existing)
            }
        },
    }
}

impl HashDB {
    /// Records the file at `path` under `digest` when the digest is new;
    /// otherwise resolves it against the recorded holder of the digest, by
    /// the cached rule for the two parent directories when there is one.
    pub fn check_file(&mut self, path: &str, digest: &str) -> (r: Outcome)
        requires
            old(self).wf(),
        ensures
            final(self).wf(),
            step_post(*old(self), *final(self), path@, digest@, r@),
    {
        match self.find(digest) {
            None => {
                proof {
                    lemma_index_lookup_push(self.index_model(), digest@, path@);
                }
                self.index_entries.push((String::from_str(digest), String::from_str(path)));
                proof {
                    assert(self.index_model() =~= old(self).index_model().push((digest@, path@)));
                    assert(self.rules_model() =~= old(self).rules_model());
                }
                Outcome::Recorded
            },
            Some(existing) => {
                let new_parent = parent_of(path);
                let existing_parent = parent_of(existing.as_str());
                match self.rule_lookup(new_parent.as_str(), existing_parent.as_str()) {
                    None => Outcome::NeedRule { new_parent, existing_parent, existing },
                    Some(rule) => {
                        let action = compute_action(rule, path, existing.as_str());
                        Outcome::Resolved { action }
                    },
                }
            },
        }
    }

    /// Caches `rule` for the unordered pair of `new_parent` and
    /// `existing_parent`, unless a rule is already cached for it; the
    /// content index is untouched either way.
    pub fn install_rule(&mut self, new_parent: &str, existing_parent: &str, rule: Rule)
        requires
            old(self).wf(),
        ensures
            final(self).wf(),
            final(self).index_model() == old(self).index_model(),
            old(self).rule_for(new_parent@, existing_parent@) is None ==> {
                &&& final(self).rules_model() == old(self).rules_model().push(
                    (new_parent@, existing_parent@, rule@),
                )
                &&& final(self).rule_for(new_parent@, existing_parent@) == Some(rule@)
            },
            old(self).rule_for(new_parent@, existing_parent@) is Some ==> final(self).rules_model()
                == old(self).rules_model(),
    {
        let absent = self.rule_lookup(new_parent, existing_parent).is_none();
        if absent {
            proof {
                lemma_rules_lookup_push(
                    self.rules_model(),
                    new_parent@,
                    existing_parent@,
                    rule@,
                );
            }
            self.rule_entries.push(
                (String::from_str(new_parent), String::from_str(existing_parent), rule),
            );
            proof {
                assert(self.rules_model() =~= old(self).rules_model().push(
                    (new_parent@, existing_parent@, rule@),
                ));
                assert(self.index_model() =~= old(self).index_model());
                assert(pair_matches(new_parent@, existing_parent@, new_parent@, existing_parent@));
            }
        } else {
            proof {
                assert(self.rules_model() =~= old(self).rules_model());
                assert(self.index_model() =~= old(self).index_model());
            }
        }
    }

    /// Digests `contents` and records or resolves the file at `path`; see
    /// [`step_post`].
    pub fn process_file(&mut self, path: &str, contents: &[u8]) -> (r: Outcome)
        requires
            old(self).wf(),
        ensures
            final(self).wf(),
            step_post(*old(self), *final(self), path@, digest_of(contents@), r@),
    {
        let digest = sha256_hex(contents);
        self.check_file(path, digest.as_str())
    }
}

/// The index only grows, and what it records is permanent: after any
/// processing step, every digest recorded before answers exactly as it did.
pub proof fn lemma_first_seen_is_permanent(
    pre: HashDB,
    post: HashDB,
    path: Seq<char>,
    d: Seq<char>,
    r: OutcomeModel,
)
    requires
        pre.wf(),
        step_post(pre, post, path, d, r),
    ensures
        forall|d2: Seq<char>|
            #[trigger] pre.digest_lookup(d2) is Some ==> post.digest_lookup(d2)
                == pre.digest_lookup(d2),
{
    if r is Recorded {
        lemma_index_lookup_push(pre.index_model(), d, path);
    }
}

/// Two files of identical content, processed in turn: the first is
/// recorded, and the second triggers exactly one resolution — it is
/// reported, resolved or asks for a rule, but records nothing, so the
/// index keeps a single entry for the shared digest, the first file.
pub proof fn lemma_duplicate_pair_single_resolution(
    pre: HashDB,
    mid: HashDB,
    post: HashDB,
    path_a: Seq<char>,
    path_b: Seq<char>,
    d: Seq<char>,
    r1: OutcomeModel,
    r2: OutcomeModel,
)
    requires
        pre.wf(),
        pre.digest_lookup(d) is None,
        step_post(pre, mid, path_a, d, r1),
        step_post(mid, post, path_b, d, r2),
    ensures
        r1 == OutcomeModel::Recorded,
        !(r2 is Recorded),
        mid.digest_lookup(d) == Some(path_a),
        post.index_model() == mid.index_model(),
        r2 matches OutcomeModel::NeedRule { existing, .. } ==> existing == path_a,
{
    lemma_index_lookup_push(pre.index_model(), d, path_a);
}

/// Once a rule is cached for a directory pair, every later conflict whose
/// parent directories form that pair — in either role — resolves under it,
/// without asking for a rule again.
pub proof fn lemma_cached_rule_applies(
    pre: HashDB,
    post: HashDB,
    path: Seq<char>,
    d: Seq<char>,
    r: OutcomeModel,
)
    requires
        pre.wf(),
        pre.digest_lookup(d) is Some,
        pre.rule_for(parent_spec(pre.digest_lookup(d)->0), parent_spec(path)) is Some
            || pre.rule_for(parent_spec(path), parent_spec(pre.digest_lookup(d)->0)) is Some,
        step_post(pre, post, path, d, r),
    ensures
        r is Resolved,
        r->action == action_of(
            pre.rule_for(parent_spec(path), parent_spec(pre.digest_lookup(d)->0))->0,
            path,
            pre.digest_lookup(d)->0,
        ),
{
    let existing = pre.digest_lookup(d)->0;
    lemma_rules_lookup_symmetric(pre.rules_model(), parent_spec(existing), parent_spec(path));
}

/// A cached Print rule only ever reports: the step leaves both the index
/// and the rule cache exactly as they were and prescribes no change to the
/// file system, however many times it fires for the pair.
pub proof fn lemma_print_rule_idempotent(
    pre: HashDB,
    post: HashDB,
    path: Seq<char>,
    d: Seq<char>,
    r: OutcomeModel,
)
    requires
        pre.wf(),
        pre.digest_lookup(d) is Some,
        pre.rule_for(parent_spec(path), parent_spec(pre.digest_lookup(d)->0)) == Some(
            RuleModel::Print,
        ),
        step_post(pre, post, path, d, r),
    ensures
        post.index_model() == pre.index_model(),
        post.rules_model() == pre.rules_model(),
        r == (OutcomeModel::Resolved {
            action: FsActionModel::Report {
                duplicate: path,
                original: pre.digest_lookup(d)->0,
            },
        }),
{
}

/// A Move rule relocates exactly the duplicate that lies under the losing
/// directory, into the destination directory and under the file's own
/// name: splitting the target path gives the destination and the original
/// name back.
pub proof fn lemma_move_action_round_trip(
    loser: Seq<char>,
    dest: Seq<char>,
    path: Seq<char>,
    existing: Seq<char>,
)
    ensures
        ({
            let source = if loser == parent_spec(path) {
                path
            } else {
                existing
            };
            let target = join_spec(dest, name_spec(source));
            &&& action_of(RuleModel::Move(loser, dest), path, existing)
                == (FsActionModel::Relocate { source, dest: target })
            &&& parent_spec(target) == dest
            &&& name_spec(target) == name_spec(source)
        }),
{
    let source = if loser == parent_spec(path) {
        path
    } else {
        existing
    };
    crate::paths::lemma_name_spec_no_slash(source);
    crate::paths::lemma_join_parts(dest, name_spec(source));
}

/// A Delete rule removes exactly the duplicate that lies under the losing
/// directory; the other file of the pair is not acted on.
pub proof fn lemma_delete_action_picks_loser(
    loser: Seq<char>,
    path: Seq<char>,
    existing: Seq<char>,
)
    ensures
        loser == parent_spec(path) ==> action_of(RuleModel::Delete(loser), path, existing) == (
        FsActionModel::Remove { victim: path }),
        loser != parent_spec(path) ==> action_of(RuleModel::Delete(loser), path, existing) == (
        FsActionModel::Remove { victim: existing }),
{
}

} // verus!
