//! The collection of modpacks found on disk, finding one by name, and the
//! name completion offered when the user types a modpack name.

use vstd::prelude::*;
use crate::modpack::{string_views, Modpack, ModpackView};
use crate::text::{contains_text, text_contains};

verus! {

/// The modpacks that were loaded, in the order they were found.
#[derive(Debug)]
pub struct Modpacks {
    modpacks: Vec<Modpack>,
}

/// Views of a sequence of modpacks.
pub open spec fn pack_views(ps: Seq<Modpack>) -> Seq<ModpackView> {
    ps.map_values(|p: Modpack| p@)
}

impl View for Modpacks {
    type V = Seq<ModpackView>;

    closed spec fn view(&self) -> Seq<ModpackView> {
        pack_views(self.modpacks@)
    }
}

/// The modpacks among the loading results, in order (a failed load gives none).
pub open spec fn loaded_packs(ls: Seq<Option<ModpackView>>) -> Seq<ModpackView>
    decreases ls.len(),
{
    if ls.len() == 0 {
        Seq::empty()
    } else {
        let rest = loaded_packs(ls.drop_last());
        match ls.last() {
            Some(p) => rest.push(p),
            None => rest,
        }
    }
}

/// Views of loading results.
pub open spec fn load_views(ls: Seq<Option<Modpack>>) -> Seq<Option<ModpackView>> {
    ls.map_values(
        |l: Option<Modpack>|
            match l {
                Some(p) => Some(p@),
                None => None,
            },
    )
}

/// The names of the modpacks, in order.
pub open spec fn pack_names(ps: Seq<ModpackView>) -> Seq<Seq<char>> {
    ps.map_values(|p: ModpackView| p.name)
}

/// Index of the first modpack named `name`, when there is one.
pub open spec fn first_named(ps: Seq<ModpackView>, name: Seq<char>) -> Option<int> {
    if exists|i: int| 0 <= i < ps.len() && #[trigger] ps[i].name == name {
        Some(
            choose|i: int|
                0 <= i < ps.len() && #[trigger] ps[i].name == name && forall|j: int|
                    0 <= j < i ==> ps[j].name != name,
        )
    } else {
        None
    }
}

/// The options that contain `input`, in order.
pub open spec fn matching_options(opts: Seq<Seq<char>>, input: Seq<char>) -> Seq<Seq<char>>
    decreases opts.len(),
{
    if opts.len() == 0 {
        Seq::empty()
    } else {
        let rest = matching_options(opts.drop_last(), input);
        if contains_text(opts.last(), input) {
            rest.push(opts.last())
        } else {
            rest
        }
    }
}

/// Name completion over a fixed list of modpack names.
#[derive(Debug, Clone, PartialEq, Eq)]
pub struct ModpackAutocomplete {
    /// The names offered.
    pub options: Vec<String>,
}

impl View for ModpackAutocomplete {
    type V = Seq<Seq<char>>;

    open spec fn view(&self) -> Seq<Seq<char>> {
        string_views(self.options@)
    }
}

impl ModpackAutocomplete {
    /// The options that contain what the user typed, in order.
    pub fn get_suggestions(&mut self, input: &str) -> (r: Vec<String>)
        ensures
            final(self)@ == old(self)@,
            string_views(r@) == matching_options(old(self)@, input@),
    {
        let ghost opts = self@;
        let mut out: Vec<String> = Vec::new();
        let mut i: usize = 0;
        while i < self.options.len()
            invariant
                opts == self@,
                i <= opts.len(),
                string_views(out@) == matching_options(opts.subrange(0, i as int), input@),
            decreases opts.len() - i,
        {
            let ghost prefix = opts.subrange(0, i as int);
            let ghost next = opts.subrange(0, i + 1);
            assert(next.drop_last() =~= prefix);
            assert(next.last() == self.options@[i as int]@);
            let opt = &self.options[i];
            if text_contains(opt.as_str(), input) {
                out.push(opt.clone());
            }
            assert(string_views(out@) =~= matching_options(next, input@));
            i = i + 1;
        }
        assert(opts.subrange(0, i as int) =~= opts);
        out
    }

    /// The text that replaces the input when the user completes: the highlighted
    /// suggestion, or nothing when none is highlighted.
    pub fn get_completion(&mut self, _input: &str, highlighted: Option<String>) -> (r: Option<
        String,
    >)
        ensures
            final(self)@ == old(self)@,
            r == highlighted,
    {
        if let Some(suggestion) = highlighted {
            Some(suggestion)
        } else {
            None
        }
    }
}

impl Modpacks {
    /// An empty collection.
    pub fn new() -> (r: Self)
        ensures
            r@.len() == 0,
    {
        let r = Modpacks { modpacks: Vec::new() };
        assert(r@ =~= Seq::<ModpackView>::empty());
        r
    }

    /// Adds, in order, the modpacks that loaded; a file that did not load adds nothing.
    pub fn fill(&mut self, loaded: Vec<Option<Modpack>>)
        ensures
            final(self)@ == old(self)@ + loaded_packs(load_views(loaded@)),
    {
        let ghost start = self@;
        let ghost ls = load_views(loaded@);
        let mut i: usize = 0;
        while i < loaded.len()
            invariant
                ls == load_views(loaded@),
                i <= ls.len(),
                self@ == start + loaded_packs(ls.subrange(0, i as int)),
            decreases ls.len() - i,
        {
            let ghost prefix = ls.subrange(0, i as int);
            let ghost next = ls.subrange(0, i + 1);
            assert(next.drop_last() =~= prefix);
            assert(next.last() == ls[i as int]);
            let ghost before = self@;
            if let Some(p) = &loaded[i] {
                let c = p.duplicate();
                self.modpacks.push(c);
                assert(self@ =~= before.push(p@));
            }
            assert(self@ =~= start + loaded_packs(next));
            i = i + 1;
        }
        assert(ls.subrange(0, i as int) =~= ls);
    }

    /// Name completion over the names of the modpacks.
    pub fn gen_autocomplete(&self) -> (r: ModpackAutocomplete)
        ensures
            r@ == pack_names(self@),
    {
        let mut names: Vec<String> = Vec::new();
        let mut i: usize = 0;
        while i < self.modpacks.len()
            invariant
                i <= self@.len(),
                names@.len() == i,
                forall|k: int| 0 <= k < i ==> #[trigger] names@[k]@ == self@[k].name,
            decreases self@.len() - i,
        {
            names.push(self.modpacks[i].name.clone());
            i = i + 1;
        }
        let r = ModpackAutocomplete { options: names };
        assert(r@ =~= pack_names(self@));
        r
    }

    /// A copy of the first modpack with the given name, if any.
    pub fn find_by_name(&self, name: String) -> (r: Option<Modpack>)
        ensures
            match first_named(self@, name@) {
                Some(i) => r matches Some(p) && p@ == self@[i],
                None => r is None,
            },
    {
        let mut i: usize = 0;
        while i < self.modpacks.len()
            invariant
                i <= self@.len(),
                forall|j: int| 0 <= j < i ==> self@[j].name != name@,
            decreases self@.len() - i,
        {
            if self.modpacks[i].name == name {
                let ghost ps = self@;
                proof {
                    assert(ps[i as int].name == name@);
                    let c = first_named(ps, name@)->0;
                    if c < i {
                        assert(ps[c].name == name@);
                    }
                    if i < c {
                        assert(ps[i as int].name == name@);
                    }
                }
                return Some(self.modpacks[i].duplicate());
            }
            i = i + 1;
        }
        None
    }
}

/// When the modpack at `k` has the name, a first modpack with the name exists at or before `k`.
proof fn lemma_first_named_exists(packs: Seq<ModpackView>, name: Seq<char>, k: int)
    requires
        0 <= k < packs.len(),
        packs[k].name == name,
    ensures
        exists|i: int|
            0 <= i <= k && #[trigger] packs[i].name == name && forall|j: int|
                0 <= j < i ==> packs[j].name != name,
    decreases k,
{
    if exists|j: int| 0 <= j < k && #[trigger] packs[j].name == name {
        let j = choose|j: int| 0 <= j < k && #[trigger] packs[j].name == name;
        lemma_first_named_exists(packs, name, j);
    } else {
        assert(forall|j: int| 0 <= j < k ==> packs[j].name != name);
    }
}

/// Law: every name that completion offers finds a modpack, the first one with that name.
pub proof fn law_offered_names_are_found(packs: Seq<ModpackView>, k: int)
    requires
        0 <= k < pack_names(packs).len(),
    ensures
        first_named(packs, pack_names(packs)[k]) matches Some(i) && 0 <= i <= k
            && packs[i].name == pack_names(packs)[k],
{
    let name = pack_names(packs)[k];
    assert(pack_names(packs).len() == packs.len());
    assert(packs[k].name == name);
    assert(exists|i: int| 0 <= i < packs.len() && #[trigger] packs[i].name == name);
    lemma_first_named_exists(packs, name, k);
    let i = first_named(packs, name)->0;
    assert(0 <= i < packs.len() && packs[i].name == name);
    if k < i {
        assert(packs[k].name == name);
    }
}

/// Law: the suggestions are exactly the options that contain the input.
pub proof fn law_suggestions_are_matching_options(
    opts: Seq<Seq<char>>,
    input: Seq<char>,
    s: Seq<char>,
)
    ensures
        matching_options(opts, input).contains(s) <==> (opts.contains(s) && contains_text(
            s,
            input,
        )),
    decreases opts.len(),
{
    if opts.len() > 0 {
        let init = opts.drop_last();
        let last = opts.last();
        assert(init.push(last) =~= opts);
        law_suggestions_are_matching_options(init, input, s);
        crate::modpack::lemma_seq_contains_push(init, last, s);
        if contains_text(last, input) {
            crate::modpack::lemma_seq_contains_push(matching_options(init, input), last, s);
        }
    }
}

/// Law: with nothing typed, every option is suggested, in order.
pub proof fn law_empty_input_suggests_all(opts: Seq<Seq<char>>)
    ensures
        matching_options(opts, Seq::empty()) == opts,
    decreases opts.len(),
{
    if opts.len() > 0 {
        law_empty_input_suggests_all(opts.drop_last());
        assert(opts.last().subrange(0, 0) =~= Seq::<char>::empty());
        assert(crate::text::occurs_at(opts.last(), Seq::empty(), 0));
        assert(opts.drop_last().push(opts.last()) =~= opts);
    }
}

/// A substring of a substring is a substring.
pub proof fn lemma_contains_text_transitive(a: Seq<char>, b: Seq<char>, c: Seq<char>)
    requires
        contains_text(a, b),
        contains_text(b, c),
    ensures
        contains_text(a, c),
{
    let i = choose|i: int| crate::text::occurs_at(a, b, i);
    let j = choose|j: int| crate::text::occurs_at(b, c, j);
    assert forall|t: int| 0 <= t < c.len() implies a.subrange(i + j, i + j + c.len())[t] == c[t] by {
        assert(a.subrange(i, i + b.len())[j + t] == b[j + t]);
        assert(b.subrange(j, j + c.len())[t] == c[t]);
    }
    assert(a.subrange(i + j, i + j + c.len()) =~= c);
    assert(crate::text::occurs_at(a, c, i + j));
}

/// Law: typing more never adds a suggestion: when the longer input contains the
/// shorter one, its suggestions are the shorter input's suggestions that also
/// contain the longer input, in the same order.
pub proof fn law_longer_input_narrows_suggestions(
    opts: Seq<Seq<char>>,
    shorter: Seq<char>,
    longer: Seq<char>,
)
    requires
        contains_text(longer, shorter),
    ensures
        matching_options(opts, longer) == matching_options(
            matching_options(opts, shorter),
            longer,
        ),
    decreases opts.len(),
{
    if opts.len() > 0 {
        let init = opts.drop_last();
        let last = opts.last();
        law_longer_input_narrows_suggestions(init, shorter, longer);
        let ms = matching_options(init, shorter);
        if contains_text(last, longer) {
            lemma_contains_text_transitive(last, longer, shorter);
        }
        if contains_text(last, shorter) {
            assert(ms.push(last).drop_last() =~= ms);
            assert(ms.push(last).last() == last);
        }
    }
}

/// Law: a modpack is found exactly when one has the requested name, and the one
/// found is the first with exactly that name.
pub proof fn law_find_exact_name(ps: Seq<ModpackView>, name: Seq<char>)
    ensures
        first_named(ps, name) matches Some(i) ==> 0 <= i < ps.len() && ps[i].name == name && forall|
            j: int,
        |
            0 <= j < i ==> ps[j].name != name,
        first_named(ps, name) is None <==> forall|i: int| 0 <= i < ps.len() ==> ps[i].name != name,
{
    if exists|i: int| 0 <= i < ps.len() && #[trigger] ps[i].name == name {
        let i = choose|i: int| 0 <= i < ps.len() && #[trigger] ps[i].name == name;
        lemma_first_named_exists(ps, name, i);
    }
}

/// Law: filling keeps every pack that loaded, in order, and nothing else: the
/// loading results filtered on success, each unwrapped; so each pack that loaded
/// is among the packs.
pub proof fn law_fill_keeps_every_loaded_pack(ls: Seq<Option<ModpackView>>)
    ensures
        loaded_packs(ls) == ls.filter(|l: Option<ModpackView>| l is Some).map_values(
            |l: Option<ModpackView>| l->0,
        ),
        forall|i: int|
            0 <= i < ls.len() && (#[trigger] ls[i]) is Some ==> loaded_packs(ls).contains(
                ls[i]->0,
            ),
    decreases ls.len(),
{
    reveal(Seq::filter);
    let pred = |l: Option<ModpackView>| l is Some;
    let f = |l: Option<ModpackView>| l->0;
    if ls.len() > 0 {
        let init = ls.drop_last();
        let last = ls.last();
        law_fill_keeps_every_loaded_pack(init);
        let fi = init.filter(pred);
        assert(ls.filter(pred) == (if pred(last) {
            fi.push(last)
        } else {
            fi
        }));
        if pred(last) {
            assert(fi.push(last).map_values(f) =~= fi.map_values(f).push(f(last)));
        }
        assert forall|i: int|
            0 <= i < ls.len() && (#[trigger] ls[i]) is Some implies loaded_packs(ls).contains(
                ls[i]->0,
            ) by {
            let rest = loaded_packs(init);
            if i < init.len() {
                assert(init[i] == ls[i]);
                assert(rest.contains(init[i]->0));
                let k = choose|k: int| 0 <= k < rest.len() && rest[k] == init[i]->0;
                if last is Some {
                    assert(rest.push(last->0)[k] == ls[i]->0);
                }
            } else {
                assert(ls[i] == last);
                assert(rest.push(last->0)[rest.len() as int] == ls[i]->0);
            }
        }
    }
}

} // verus!
