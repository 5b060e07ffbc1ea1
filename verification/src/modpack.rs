//! A modpack: its mods, their de-duplication by project id, and the bookkeeping
//! of the metadata round in which every mod and every new dependency is resolved.

use vstd::prelude::*;
use crate::mod_entry::{entry_views, ModEntry, ModEntryView};
use crate::text::{copy_opt_string, opt_view, same_opt_string};

verus! {

/// A modpack description.
#[derive(Debug, Clone, PartialEq, Eq)]
pub struct Modpack {
    /// Name the user picks the modpack by.
    pub name: String,
    /// Mod loader (such as `fabric`).
    pub loader: String,
    /// The mods.
    pub mods: Vec<ModEntry>,
    /// Game version the pack was written for.
    pub version: Option<String>,
}

/// Mathematical view of a [`Modpack`].
pub struct ModpackView {
    pub name: Seq<char>,
    pub loader: Seq<char>,
    pub mods: Seq<ModEntryView>,
    pub version: Option<Seq<char>>,
}

impl View for Modpack {
    type V = ModpackView;

    open spec fn view(&self) -> ModpackView {
        ModpackView {
            name: self.name@,
            loader: self.loader@,
            mods: entry_views(self.mods@),
            version: opt_view(self.version),
        }
    }
}

/// The project ids of a sequence of entries.
pub open spec fn entry_ids(es: Seq<ModEntryView>) -> Seq<Option<Seq<char>>> {
    es.map_values(|e: ModEntryView| e.id)
}

/// Every entry has a project id.
pub open spec fn all_have_ids(es: Seq<ModEntryView>) -> bool {
    forall|i: int| 0 <= i < es.len() ==> (#[trigger] es[i]).id is Some
}

/// The entries whose project id does not occur earlier in the sequence, in order:
/// the first occurrence of each id is kept.
pub open spec fn first_occurrences(es: Seq<ModEntryView>) -> Seq<ModEntryView>
    decreases es.len(),
{
    if es.len() == 0 {
        Seq::empty()
    } else {
        let rest = first_occurrences(es.drop_last());
        if entry_ids(es.drop_last()).contains(es.last().id) {
            rest
        } else {
            rest.push(es.last())
        }
    }
}

/// No two entries share a project id.
pub open spec fn ids_distinct(es: Seq<ModEntryView>) -> bool {
    forall|i: int, j: int| 0 <= i < j < es.len() ==> es[i].id != es[j].id
}

/// Views of a sequence of strings.
pub open spec fn string_views(ss: Seq<String>) -> Seq<Seq<char>> {
    ss.map_values(|s: String| s@)
}

/// Whether `s` is among `ss`.
fn contains_string(ss: &Vec<String>, s: &String) -> (r: bool)
    ensures
        r == string_views(ss@).contains(s@),
{
    let mut i: usize = 0;
    while i < ss.len()
        invariant
            i <= ss@.len(),
            forall|j: int| 0 <= j < i ==> ss@[j]@ != s@,
        decreases ss@.len() - i,
    {
        if ss[i] == *s {
            assert(string_views(ss@)[i as int] == s@);
            return true;
        }
        i = i + 1;
    }
    assert forall|j: int| 0 <= j < string_views(ss@).len() implies string_views(ss@)[j] != s@ by {
        assert(string_views(ss@)[j] == ss@[j]@);
    }
    false
}

/// Whether `id` is among `ids`.
fn contains_id(ids: &Vec<Option<String>>, id: &Option<String>) -> (r: bool)
    ensures
        r == opt_views(ids@).contains(opt_view(*id)),
{
    let ghost views = opt_views(ids@);
    let mut i: usize = 0;
    while i < ids.len()
        invariant
            i <= ids@.len(),
            views == opt_views(ids@),
            forall|j: int| 0 <= j < i ==> views[j] != opt_view(*id),
        decreases ids@.len() - i,
    {
        if same_opt_string(&ids[i], id) {
            assert(views[i as int] == opt_view(*id));
            return true;
        }
        i = i + 1;
    }
    false
}

/// Whether some entry of `es` has the project id `id`.
fn has_entry_with_id(es: &Vec<ModEntry>, id: &Option<String>) -> (r: bool)
    ensures
        r == entry_ids(entry_views(es@)).contains(opt_view(*id)),
{
    let ghost ids = entry_ids(entry_views(es@));
    let mut i: usize = 0;
    while i < es.len()
        invariant
            i <= es@.len(),
            ids == entry_ids(entry_views(es@)),
            forall|j: int| 0 <= j < i ==> ids[j] != opt_view(*id),
        decreases es@.len() - i,
    {
        if same_opt_string(&es[i].id, id) {
            assert(ids[i as int] == opt_view(*id));
            return true;
        }
        i = i + 1;
    }
    false
}

/// A copy of a list of entries.
pub fn copy_entries(es: &Vec<ModEntry>) -> (r: Vec<ModEntry>)
    ensures
        entry_views(r@) == entry_views(es@),
{
    let mut r: Vec<ModEntry> = Vec::new();
    let mut i: usize = 0;
    while i < es.len()
        invariant
            i <= es@.len(),
            r@.len() == i,
            forall|k: int| 0 <= k < i ==> #[trigger] r@[k]@ == es@[k]@,
        decreases es@.len() - i,
    {
        let e = es[i].duplicate();
        r.push(e);
        i = i + 1;
    }
    assert(entry_views(r@) =~= entry_views(es@));
    r
}

impl Modpack {
    /// A copy of this modpack.
    pub fn duplicate(&self) -> (r: Self)
        ensures
            r@ == self@,
    {
        Modpack {
            name: self.name.clone(),
            loader: self.loader.clone(),
            mods: copy_entries(&self.mods),
            version: copy_opt_string(&self.version),
        }
    }

    /// Keeps, in order, the first mod of each project id and drops the later ones.
    pub fn purge_duplicates(&mut self)
        requires
            all_have_ids(old(self)@.mods),
        ensures
            final(self)@ == (ModpackView { mods: first_occurrences(old(self)@.mods), ..old(self)@ }),
    {
        let ghost all = entry_views(self.mods@);
        let mut kept: Vec<ModEntry> = Vec::new();
        let mut seen: Vec<String> = Vec::new();
        let mut i: usize = 0;
        while i < self.mods.len()
            invariant
                all == entry_views(self.mods@),
                all_have_ids(all),
                i <= all.len(),
                entry_views(kept@) == first_occurrences(all.subrange(0, i as int)),
                forall|x: Seq<char>|
                    string_views(seen@).contains(x) <==> entry_ids(
                        all.subrange(0, i as int),
                    ).contains(Some(x)),
            decreases all.len() - i,
        {
            let ghost prefix = all.subrange(0, i as int);
            let ghost next = all.subrange(0, i + 1);
            assert(next.drop_last() =~= prefix);
            assert(next.last() == all[i as int]);
            assert(all[i as int] == self.mods@[i as int]@);
            assert(entry_ids(next) =~= entry_ids(prefix).push(all[i as int].id));
            let m = &self.mods[i];
            let id = match &m.id {
                Some(id) => id,
                None => {
                    assert(all[i as int].id is Some);
                    return;
                },
            };
            let ghost seen_before = string_views(seen@);
            if !contains_string(&seen, id) {
                let e = m.duplicate();
                let s = id.clone();
                kept.push(e);
                seen.push(s);
                assert(entry_views(kept@) =~= first_occurrences(next));
                assert forall|x: Seq<char>|
                    string_views(seen@).contains(x) <==> entry_ids(next).contains(
                        Some(x),
                    ) by {
                    let sv = string_views(seen@);
                    let old_sv = seen_before;
                    assert(sv =~= old_sv.push(id@));
                    assert(old_sv.contains(x) <==> entry_ids(prefix).contains(Some(x)));
                    if x == id@ {
                        assert(entry_ids(next)[i as int] == Some(x));
                        assert(sv[sv.len() - 1] == x);
                    } else {
                        if entry_ids(next).contains(Some(x)) {
                            let k = choose|k: int|
                                0 <= k < entry_ids(next).len() && entry_ids(next)[k] == Some(x);
                            assert(entry_ids(prefix)[k] == Some(x));
                            assert(old_sv.contains(x));
                            let m = choose|m: int| 0 <= m < old_sv.len() && old_sv[m] == x;
                            assert(sv[m] == x);
                        }
                        if sv.contains(x) {
                            let m = choose|m: int| 0 <= m < sv.len() && sv[m] == x;
                            assert(old_sv[m] == x);
                            assert(entry_ids(prefix).contains(Some(x)));
                            let k = choose|k: int|
                                0 <= k < entry_ids(prefix).len() && entry_ids(prefix)[k] == Some(x);
                            assert(entry_ids(next)[k] == Some(x));
                        }
                    }
                }
            } else {
                assert(entry_views(kept@) =~= first_occurrences(next));
                assert forall|x: Seq<char>|
                    string_views(seen@).contains(x) <==> entry_ids(next).contains(
                        Some(x),
                    ) by {
                    if entry_ids(next).contains(Some(x)) {
                        let k = choose|k: int|
                            0 <= k < entry_ids(next).len() && entry_ids(next)[k] == Some(x);
                        if k < i {
                            assert(entry_ids(prefix)[k] == Some(x));
                        }
                    }
                    if entry_ids(prefix).contains(Some(x)) {
                        let k = choose|k: int|
                            0 <= k < entry_ids(prefix).len() && entry_ids(prefix)[k] == Some(x);
                        assert(entry_ids(next)[k] == Some(x));
                    }
                }
            }
            i = i + 1;
        }
        assert(all.subrange(0, i as int) =~= all);
        self.mods = kept;
    }

    /// Ends a metadata round once no resolution is pending: the mods become the
    /// resolved ones, without duplicates. Every mod the pack started with and every
    /// dependency reported during the round is then among the mods, and every mod
    /// is one of these.
    pub fn finish_metadata(&mut self, run: MetadataRun)
        requires
            all_have_ids(run@.processed),
            run@.pending.len() == 0,
        ensures
            final(self)@ == (ModpackView { mods: first_occurrences(run@.processed), ..old(self)@ }),
            forall|x: Option<Seq<char>>|
                #![trigger entry_ids(final(self)@.mods).contains(x)]
                (run@.original_ids.contains(x) || run@.reported.contains(x)) <==> entry_ids(
                    final(self)@.mods,
                ).contains(x),
    {
        proof {
            use_type_invariant(&run);
        }
        let ghost r = run@;
        self.mods = run.processed;
        self.purge_duplicates();
        proof {
            assert forall|x: Option<Seq<char>>|
                (r.original_ids.contains(x) || r.reported.contains(x)) <==> entry_ids(
                    first_occurrences(r.processed),
                ).contains(x) by {
                law_finished_round_covers(r, x);
            }
        }
    }
}

/// Views of a sequence of optional strings.
pub open spec fn opt_views(ids: Seq<Option<String>>) -> Seq<Option<Seq<char>>> {
    ids.map_values(|o: Option<String>| opt_view(o))
}

/// Bookkeeping of a metadata round: the ids of the modpack's own mods, the mods
/// resolved so far, the ids of the resolutions handed out and not yet returned,
/// and the ids of every dependency reported so far.
pub struct MetadataRun {
    original_ids: Vec<Option<String>>,
    processed: Vec<ModEntry>,
    pending: Vec<Option<String>>,
    reported: Ghost<Seq<Option<Seq<char>>>>,
}

/// Mathematical view of a [`MetadataRun`].
pub struct MetadataRunView {
    pub original_ids: Seq<Option<Seq<char>>>,
    pub processed: Seq<ModEntryView>,
    pub pending: Seq<Option<Seq<char>>>,
    pub reported: Seq<Option<Seq<char>>>,
}

impl View for MetadataRun {
    type V = MetadataRunView;

    closed spec fn view(&self) -> MetadataRunView {
        MetadataRunView {
            original_ids: opt_views(self.original_ids@),
            processed: entry_views(self.processed@),
            pending: opt_views(self.pending@),
            reported: self.reported@,
        }
    }
}

/// What a round keeps true: each of the pack's own mods is resolved or pending;
/// each reported dependency is resolved, pending or one of the pack's own; and
/// whatever is resolved or pending is one of the pack's own or was reported.
pub open spec fn round_consistent(r: MetadataRunView) -> bool {
    &&& forall|x: Option<Seq<char>>|
        #![trigger r.original_ids.contains(x)]
        r.original_ids.contains(x) ==> entry_ids(r.processed).contains(x) || r.pending.contains(
            x,
        )
    &&& forall|x: Option<Seq<char>>|
        #![trigger r.reported.contains(x)]
        r.reported.contains(x) ==> entry_ids(r.processed).contains(x) || r.pending.contains(x)
            || r.original_ids.contains(x)
    &&& forall|x: Option<Seq<char>>|
        #![trigger entry_ids(r.processed).contains(x)]
        entry_ids(r.processed).contains(x) ==> r.original_ids.contains(x) || r.reported.contains(
            x,
        )
    &&& forall|x: Option<Seq<char>>|
        #![trigger r.pending.contains(x)]
        r.pending.contains(x) ==> r.original_ids.contains(x) || r.reported.contains(x)
}

impl MetadataRun {
    #[verifier::type_invariant]
    spec fn consistent(self) -> bool {
        round_consistent(self@)
    }
}

/// An id is known to a round when a resolved mod or one of the pack's own mods has it.
pub open spec fn is_known(
    processed: Seq<ModEntryView>,
    originals: Seq<Option<Seq<char>>>,
    id: Option<Seq<char>>,
) -> bool {
    entry_ids(processed).contains(id) || originals.contains(id)
}

/// The dependencies, in order, whose ids are not known to the round.
pub open spec fn unknown_dependencies(
    processed: Seq<ModEntryView>,
    originals: Seq<Option<Seq<char>>>,
    deps: Seq<ModEntryView>,
) -> Seq<ModEntryView>
    decreases deps.len(),
{
    if deps.len() == 0 {
        Seq::empty()
    } else {
        let rest = unknown_dependencies(processed, originals, deps.drop_last());
        if is_known(processed, originals, deps.last().id) {
            rest
        } else {
            rest.push(deps.last())
        }
    }
}

/// The dependencies whose ids are neither among `processed` nor among `originals`.
fn unknown_entries(
    processed: &Vec<ModEntry>,
    originals: &Vec<Option<String>>,
    dependencies: &Vec<ModEntry>,
) -> (r: Vec<ModEntry>)
    ensures
        entry_views(r@) == unknown_dependencies(
            entry_views(processed@),
            opt_views(originals@),
            entry_views(dependencies@),
        ),
{
    let ghost ps = entry_views(processed@);
    let ghost os = opt_views(originals@);
    let ghost deps = entry_views(dependencies@);
    let mut out: Vec<ModEntry> = Vec::new();
    let mut i: usize = 0;
    while i < dependencies.len()
        invariant
            ps == entry_views(processed@),
            os == opt_views(originals@),
            deps == entry_views(dependencies@),
            i <= deps.len(),
            entry_views(out@) == unknown_dependencies(ps, os, deps.subrange(0, i as int)),
        decreases deps.len() - i,
    {
        let ghost prefix = deps.subrange(0, i as int);
        let ghost next = deps.subrange(0, i + 1);
        assert(next.drop_last() =~= prefix);
        assert(next.last() == dependencies@[i as int]@);
        let d = &dependencies[i];
        let known = has_entry_with_id(processed, &d.id) || contains_id(originals, &d.id);
        if !known {
            out.push(d.duplicate());
        }
        assert(entry_views(out@) =~= unknown_dependencies(ps, os, next));
        i = i + 1;
    }
    assert(deps.subrange(0, i as int) =~= deps);
    out
}

/// Index of the first occurrence of `id` among `ids`, which holds it.
fn first_index_of_id(ids: &Vec<Option<String>>, id: &Option<String>) -> (r: usize)
    requires
        opt_views(ids@).contains(opt_view(*id)),
    ensures
        r < ids@.len(),
        opt_views(ids@)[r as int] == opt_view(*id),
        forall|j: int| 0 <= j < r ==> opt_views(ids@)[j] != opt_view(*id),
{
    let ghost vs = opt_views(ids@);
    let mut i: usize = 0;
    while i < ids.len()
        invariant
            vs == opt_views(ids@),
            vs.contains(opt_view(*id)),
            i <= vs.len(),
            forall|j: int| 0 <= j < i ==> vs[j] != opt_view(*id),
        decreases vs.len() - i,
    {
        if same_opt_string(&ids[i], id) {
            return i;
        }
        i = i + 1;
    }
    proof {
        let k = choose|k: int| 0 <= k < vs.len() && vs[k] == opt_view(*id);
        assert(vs[k] != opt_view(*id));
    }
    0
}

impl MetadataRun {
    /// A round with nothing in it.
    fn empty() -> (r: Self)
        ensures
            r@.original_ids.len() == 0,
            r@.processed.len() == 0,
            r@.pending.len() == 0,
            r@.reported.len() == 0,
    {
        let r = MetadataRun {
            original_ids: Vec::new(),
            processed: Vec::new(),
            pending: Vec::new(),
            reported: Ghost(Seq::empty()),
        };
        assert(r@.original_ids =~= Seq::<Option<Seq<char>>>::empty());
        assert(r@.pending =~= Seq::<Option<Seq<char>>>::empty());
        assert(r@.processed =~= Seq::<ModEntryView>::empty());
        r
    }

    /// Starts a round for the given mods of a pack: each of them is handed out for
    /// resolution, nothing is resolved or reported yet.
    pub fn new(mods: &Vec<ModEntry>) -> (r: Self)
        ensures
            r@.original_ids == entry_ids(entry_views(mods@)),
            r@.processed.len() == 0,
            r@.pending == entry_ids(entry_views(mods@)),
            r@.reported.len() == 0,
    {
        let mut ids: Vec<Option<String>> = Vec::new();
        let mut pending: Vec<Option<String>> = Vec::new();
        let mut i: usize = 0;
        while i < mods.len()
            invariant
                i <= mods@.len(),
                ids@.len() == i,
                pending@.len() == i,
                forall|k: int| 0 <= k < i ==> opt_view(#[trigger] ids@[k]) == mods@[k]@.id,
                forall|k: int| 0 <= k < i ==> opt_view(#[trigger] pending@[k]) == mods@[k]@.id,
            decreases mods@.len() - i,
        {
            ids.push(copy_opt_string(&mods[i].id));
            pending.push(copy_opt_string(&mods[i].id));
            i = i + 1;
        }
        assert(opt_views(ids@) =~= entry_ids(entry_views(mods@)));
        assert(opt_views(pending@) =~= entry_ids(entry_views(mods@)));
        let processed: Vec<ModEntry> = Vec::new();
        proof {
            assert(entry_views(processed@) =~= Seq::<ModEntryView>::empty());
            assert(entry_ids(entry_views(processed@)) =~= Seq::<Option<Seq<char>>>::empty());
        }
        MetadataRun { original_ids: ids, processed, pending, reported: Ghost(Seq::empty()) }
    }

    /// The number of mods resolved so far.
    pub fn processed_count(&self) -> (r: usize)
        ensures
            r == self@.processed.len(),
    {
        self.processed.len()
    }

    /// The number of resolutions handed out and not yet returned.
    pub fn pending_count(&self) -> (r: usize)
        ensures
            r == self@.pending.len(),
    {
        self.pending.len()
    }

    /// Whether a resolution for this id was handed out and has not returned.
    pub fn is_pending(&self, id: &Option<String>) -> (r: bool)
        ensures
            r == self@.pending.contains(opt_view(*id)),
    {
        contains_id(&self.pending, id)
    }

    /// Whether every resolved mod has a project id (needed to end the round).
    pub fn processed_have_ids(&self) -> (r: bool)
        ensures
            r == all_have_ids(self@.processed),
    {
        let ghost ps = entry_views(self.processed@);
        let mut i: usize = 0;
        while i < self.processed.len()
            invariant
                ps == self@.processed,
                ps == entry_views(self.processed@),
                i <= ps.len(),
                forall|j: int| 0 <= j < i ==> (#[trigger] ps[j]).id is Some,
            decreases ps.len() - i,
        {
            assert(ps[i as int] == self.processed@[i as int]@);
            if self.processed[i].id.is_none() {
                return false;
            }
            i = i + 1;
        }
        true
    }

    /// Records a returned resolution (one pending occurrence of its id is settled)
    /// and the dependencies it reported, and returns the dependencies to resolve
    /// next, which become pending: those whose ids are neither resolved (this mod
    /// included) nor among the pack's own mods.
    pub fn on_result(&mut self, processed_mod: ModEntry, dependencies: Vec<ModEntry>) -> (r: Vec<
        ModEntry,
    >)
        requires
            old(self)@.pending.contains(processed_mod@.id),
        ensures
            final(self)@.original_ids == old(self)@.original_ids,
            final(self)@.processed == old(self)@.processed.push(processed_mod@),
            entry_views(r@) == unknown_dependencies(
                final(self)@.processed,
                final(self)@.original_ids,
                entry_views(dependencies@),
            ),
            exists|i: int|
                0 <= i < old(self)@.pending.len() && old(self)@.pending[i] == processed_mod@.id
                    && (forall|j: int| 0 <= j < i ==> old(self)@.pending[j] != processed_mod@.id)
                    && final(self)@.pending == old(self)@.pending.remove(i) + entry_ids(
                    entry_views(r@),
                ),
            final(self)@.reported == old(self)@.reported + entry_ids(entry_views(dependencies@)),
    {
        proof {
            use_type_invariant(&*self);
        }
        let mut tmp = MetadataRun::empty();
        std::mem::swap(self, &mut tmp);
        let ghost o = tmp@;
        let MetadataRun { original_ids, mut processed, mut pending, reported } = tmp;
        let i = first_index_of_id(&pending, &processed_mod.id);
        let _ = pending.remove(i);
        assert(opt_views(pending@) =~= o.pending.remove(i as int));
        let ghost removed = opt_views(pending@);
        let ghost pm = processed_mod@;
        processed.push(processed_mod);
        assert(entry_views(processed@) =~= o.processed.push(pm));
        let out = unknown_entries(&processed, &original_ids, &dependencies);
        let mut k: usize = 0;
        while k < out.len()
            invariant
                k <= out@.len(),
                opt_views(pending@) == removed + entry_ids(entry_views(out@.subrange(0, k as int))),
            decreases out@.len() - k,
        {
            let ghost pv = opt_views(pending@);
            let c = copy_opt_string(&out[k].id);
            assert(opt_view(c) == out@[k as int]@.id);
            pending.push(c);
            assert(opt_views(pending@) =~= pv.push(opt_view(c)));
            assert(entry_ids(entry_views(out@.subrange(0, k + 1))) =~= entry_ids(
                entry_views(out@.subrange(0, k as int)),
            ).push(out@[k as int]@.id));
            assert(opt_views(pending@) =~= removed + entry_ids(
                entry_views(out@.subrange(0, k + 1)),
            ));
            k = k + 1;
        }
        assert(out@.subrange(0, k as int) =~= out@);
        let ghost new_reported = reported@ + entry_ids(entry_views(dependencies@));
        proof {
            lemma_result_keeps_consistency(o, pm, i as int, entry_views(dependencies@));
        }
        *self = MetadataRun { original_ids, processed, pending, reported: Ghost(new_reported) };
        out
    }
}

/// Membership in a concatenation.
pub proof fn lemma_seq_contains_concat<A>(a: Seq<A>, b: Seq<A>, x: A)
    ensures
        (a + b).contains(x) <==> (a.contains(x) || b.contains(x)),
{
    if (a + b).contains(x) {
        let k = choose|k: int| 0 <= k < (a + b).len() && (a + b)[k] == x;
        if k < a.len() {
            assert(a[k] == x);
        } else {
            assert(b[k - a.len()] == x);
        }
    }
    if a.contains(x) {
        let k = choose|k: int| 0 <= k < a.len() && a[k] == x;
        assert((a + b)[k] == x);
    }
    if b.contains(x) {
        let k = choose|k: int| 0 <= k < b.len() && b[k] == x;
        assert((a + b)[a.len() + k] == x);
    }
}

/// Membership after removing the element at `i`.
pub proof fn lemma_seq_contains_remove<A>(s: Seq<A>, i: int, x: A)
    requires
        0 <= i < s.len(),
    ensures
        s.remove(i).contains(x) ==> s.contains(x),
        s.contains(x) && x != s[i] ==> s.remove(i).contains(x),
{
    if s.remove(i).contains(x) {
        let k = choose|k: int| 0 <= k < s.remove(i).len() && s.remove(i)[k] == x;
        if k < i {
            assert(s[k] == x);
        } else {
            assert(s[k + 1] == x);
        }
    }
    if s.contains(x) && x != s[i] {
        let k = choose|k: int| 0 <= k < s.len() && s[k] == x;
        if k < i {
            assert(s.remove(i)[k] == x);
        } else {
            assert(k != i);
            assert(s.remove(i)[k - 1] == x);
        }
    }
}

/// An entry's id is among the ids of a sequence holding the entry.
pub proof fn lemma_entry_id_member(es: Seq<ModEntryView>, e: ModEntryView)
    requires
        es.contains(e),
    ensures
        entry_ids(es).contains(e.id),
{
    let k = choose|k: int| 0 <= k < es.len() && es[k] == e;
    assert(entry_ids(es)[k] == e.id);
}

/// An id among the ids of a sequence belongs to one of its entries.
pub proof fn lemma_entry_id_witness(es: Seq<ModEntryView>, x: Option<Seq<char>>) -> (e:
    ModEntryView)
    requires
        entry_ids(es).contains(x),
    ensures
        es.contains(e),
        e.id == x,
{
    let k = choose|k: int| 0 <= k < entry_ids(es).len() && entry_ids(es)[k] == x;
    assert(es[k].id == x);
    es[k]
}

/// A returned resolution keeps a round consistent.
proof fn lemma_result_keeps_consistency(
    o: MetadataRunView,
    pm: ModEntryView,
    i: int,
    deps: Seq<ModEntryView>,
)
    requires
        round_consistent(o),
        0 <= i < o.pending.len(),
        o.pending[i] == pm.id,
    ensures
        round_consistent(
            MetadataRunView {
                original_ids: o.original_ids,
                processed: o.processed.push(pm),
                pending: o.pending.remove(i) + entry_ids(
                    unknown_dependencies(o.processed.push(pm), o.original_ids, deps),
                ),
                reported: o.reported + entry_ids(deps),
            },
        ),
{
    let np = o.processed.push(pm);
    let unk = unknown_dependencies(np, o.original_ids, deps);
    let n = MetadataRunView {
        original_ids: o.original_ids,
        processed: np,
        pending: o.pending.remove(i) + entry_ids(unk),
        reported: o.reported + entry_ids(deps),
    };
    lemma_entry_ids_push(o.processed, pm);
    assert(o.pending.contains(pm.id));
    // Whatever was resolved or pending before is resolved or pending now.
    assert forall|x: Option<Seq<char>>|
        entry_ids(o.processed).contains(x) || o.pending.contains(x) implies entry_ids(
        n.processed,
    ).contains(x) || n.pending.contains(x) by {
        lemma_seq_contains_push(entry_ids(o.processed), pm.id, x);
        lemma_seq_contains_remove(o.pending, i, x);
        lemma_seq_contains_concat(o.pending.remove(i), entry_ids(unk), x);
    }
    assert forall|x: Option<Seq<char>>| #[trigger] n.original_ids.contains(x) implies entry_ids(
        n.processed,
    ).contains(x) || n.pending.contains(x) by {
    }
    assert forall|x: Option<Seq<char>>| #[trigger] n.reported.contains(x) implies entry_ids(
        n.processed,
    ).contains(x) || n.pending.contains(x) || n.original_ids.contains(x) by {
        lemma_seq_contains_concat(o.reported, entry_ids(deps), x);
        if !o.reported.contains(x) {
            let d = lemma_entry_id_witness(deps, x);
            if !is_known(np, o.original_ids, x) {
                law_round_spawns_unknown(np, o.original_ids, deps, d);
                lemma_entry_id_member(unk, d);
                lemma_seq_contains_concat(o.pending.remove(i), entry_ids(unk), x);
            }
        }
    }
    assert forall|x: Option<Seq<char>>| #[trigger] entry_ids(n.processed).contains(x) implies n.original_ids.contains(x)
        || n.reported.contains(x) by {
        lemma_seq_contains_push(entry_ids(o.processed), pm.id, x);
        lemma_seq_contains_concat(o.reported, entry_ids(deps), x);
    }
    assert forall|x: Option<Seq<char>>| #[trigger] n.pending.contains(x) implies n.original_ids.contains(x)
        || n.reported.contains(x) by {
        lemma_seq_contains_concat(o.pending.remove(i), entry_ids(unk), x);
        lemma_seq_contains_remove(o.pending, i, x);
        lemma_seq_contains_concat(o.reported, entry_ids(deps), x);
        if entry_ids(unk).contains(x) {
            let d = lemma_entry_id_witness(unk, x);
            law_round_spawns_unknown(np, o.original_ids, deps, d);
            lemma_entry_id_member(deps, d);
        }
    }
}

/// Law: once nothing is pending, the mods of a finished round carry exactly the ids
/// of the pack's own mods and of the dependencies reported during the round: every
/// configured mod is kept, the result is closed under the reported (required)
/// dependencies, and nothing else is added.
pub proof fn law_finished_round_covers(run: MetadataRunView, x: Option<Seq<char>>)
    requires
        round_consistent(run),
        run.pending.len() == 0,
    ensures
        (run.original_ids.contains(x) || run.reported.contains(x)) <==> entry_ids(
            first_occurrences(run.processed),
        ).contains(x),
{
    law_purge_keeps_ids(run.processed, x);
}

/// Membership in a sequence after a push.
pub proof fn lemma_seq_contains_push<A>(s: Seq<A>, a: A, x: A)
    ensures
        s.push(a).contains(x) <==> (s.contains(x) || x == a),
{
    if s.push(a).contains(x) {
        let k = choose|k: int| 0 <= k < s.push(a).len() && s.push(a)[k] == x;
        if k < s.len() {
            assert(s[k] == x);
        }
    }
    if s.contains(x) {
        let k = choose|k: int| 0 <= k < s.len() && s[k] == x;
        assert(s.push(a)[k] == x);
    }
    if x == a {
        assert(s.push(a)[s.len() as int] == x);
    }
}

/// The ids of a sequence grow by the id of the entry pushed.
proof fn lemma_entry_ids_push(es: Seq<ModEntryView>, e: ModEntryView)
    ensures
        entry_ids(es.push(e)) == entry_ids(es).push(e.id),
{
    assert(entry_ids(es.push(e)) =~= entry_ids(es).push(e.id));
}

/// Law: de-duplication keeps every project id and brings in none: an id occurs
/// among the kept mods exactly when it occurs among the original ones.
pub proof fn law_purge_keeps_ids(es: Seq<ModEntryView>, id: Option<Seq<char>>)
    ensures
        entry_ids(first_occurrences(es)).contains(id) <==> entry_ids(es).contains(id),
    decreases es.len(),
{
    if es.len() > 0 {
        let init = es.drop_last();
        let last = es.last();
        assert(init.push(last) =~= es);
        lemma_entry_ids_push(init, last);
        lemma_seq_contains_push(entry_ids(init), last.id, id);
        law_purge_keeps_ids(init, id);
        if !entry_ids(init).contains(last.id) {
            lemma_entry_ids_push(first_occurrences(init), last);
            lemma_seq_contains_push(entry_ids(first_occurrences(init)), last.id, id);
        }
    }
}

/// Law: after de-duplication no two mods share a project id.
pub proof fn law_purge_ids_distinct(es: Seq<ModEntryView>)
    ensures
        ids_distinct(first_occurrences(es)),
    decreases es.len(),
{
    if es.len() > 0 {
        let init = es.drop_last();
        let last = es.last();
        law_purge_ids_distinct(init);
        if !entry_ids(init).contains(last.id) {
            let r = first_occurrences(init);
            law_purge_keeps_ids(init, last.id);
            assert forall|i: int, j: int|
                0 <= i < j < r.push(last).len() implies r.push(last)[i].id != r.push(
                last,
            )[j].id by {
                if j == r.len() {
                    if r[i].id == last.id {
                        assert(entry_ids(r)[i] == last.id);
                    }
                }
            }
        }
    }
}

/// Law: mods whose project ids are already distinct are left as they are.
pub proof fn law_purge_keeps_distinct(es: Seq<ModEntryView>)
    requires
        ids_distinct(es),
    ensures
        first_occurrences(es) == es,
    decreases es.len(),
{
    if es.len() > 0 {
        let init = es.drop_last();
        let last = es.last();
        assert(ids_distinct(init));
        law_purge_keeps_distinct(init);
        if entry_ids(init).contains(last.id) {
            let k = choose|k: int| 0 <= k < entry_ids(init).len() && entry_ids(init)[k] == last.id;
            assert(es[k].id == es[es.len() - 1].id);
        }
        assert(init.push(last) =~= es);
    }
}

/// Law: de-duplicating twice is de-duplicating once.
pub proof fn law_purge_idempotent(es: Seq<ModEntryView>)
    ensures
        first_occurrences(first_occurrences(es)) == first_occurrences(es),
{
    law_purge_ids_distinct(es);
    law_purge_keeps_distinct(first_occurrences(es));
}

/// Law: a metadata round hands out for resolution exactly the dependencies whose ids
/// it does not know: each one handed out is unknown and was among the dependencies,
/// and each dependency with an unknown id is handed out.
pub proof fn law_round_spawns_unknown(
    processed: Seq<ModEntryView>,
    originals: Seq<Option<Seq<char>>>,
    deps: Seq<ModEntryView>,
    d: ModEntryView,
)
    ensures
        unknown_dependencies(processed, originals, deps).contains(d) <==> (deps.contains(d)
            && !is_known(processed, originals, d.id)),
    decreases deps.len(),
{
    if deps.len() > 0 {
        let init = deps.drop_last();
        let last = deps.last();
        assert(init.push(last) =~= deps);
        law_round_spawns_unknown(processed, originals, init, d);
        lemma_seq_contains_push(init, last, d);
        if !is_known(processed, originals, last.id) {
            lemma_seq_contains_push(unknown_dependencies(processed, originals, init), last, d);
        }
    }
}

} // verus!
