//! The depth-first walk: which entries are visited, in which order, and
//! which directories are entered. The walk itself reads nothing; whoever
//! drives it reports what each path turned out to be.
use vstd::prelude::*;
use crate::filter::{PatternFilter, excluded_by};
use crate::tags::{TagKeepMode, TagRules, is_first_marker, lemma_first_marker_unique, kept_entries, mode_of, names_of};

verus! {

/// The separator between path components.
pub const SEPARATOR: u8 = 47;

/// `child` appended to `base` as one more path component, as
/// `std::path::Path::join` does for a plain file name: an empty base gives
/// the child itself, and no separator is doubled.
pub open spec fn join_spec(base: Seq<u8>, child: Seq<u8>) -> Seq<u8> {
    if base.len() == 0 {
        child
    } else if base.last() == SEPARATOR {
        base + child
    } else {
        base.push(SEPARATOR) + child
    }
}

/// Appends the file name `child` to the path `base`.
pub fn join(base: &[u8], child: &[u8]) -> (r: Vec<u8>)
    ensures
        r@ == join_spec(base@, child@),
{
    let mut r: Vec<u8> = Vec::new();
    let mut i: usize = 0;
    while i < base.len()
        invariant
            0 <= i <= base@.len(),
            r@ == base@.subrange(0, i as int),
        decreases base@.len() - i,
    {
        r.push(base[i]);
        i += 1;
    }
    assert(r@ =~= base@);
    if base.len() > 0 && base[base.len() - 1] != SEPARATOR {
        r.push(SEPARATOR);
    }
    let ghost start = r@;
    let mut j: usize = 0;
    while j < child.len()
        invariant
            0 <= j <= child@.len(),
            r@ == start + child@.subrange(0, j as int),
        decreases child@.len() - j,
    {
        r.push(child[j]);
        j += 1;
        assert(r@ =~= start + child@.subrange(0, j as int));
    }
    assert(child@.subrange(0, child@.len() as int) =~= child@);
    r
}

/// One path that the walk reaches: where it is on disk, and the name it
/// gets inside the archive.
pub struct WalkEntry {
    pub path: Vec<u8>,
    pub name: Vec<u8>,
}

impl View for WalkEntry {
    type V = (Seq<u8>, Seq<u8>);

    open spec fn view(&self) -> (Seq<u8>, Seq<u8>) {
        (self.path@, self.name@)
    }
}

/// The views of a sequence of walk entries.
pub open spec fn entries_of(v: Seq<WalkEntry>) -> Seq<(Seq<u8>, Seq<u8>)> {
    v.map_values(|e: WalkEntry| e@)
}

/// Whether the walk goes into a path of the given kind: directories are
/// entered, and symbolic links to them only when links are followed.
pub fn descends_into(is_dir: bool, is_symlink: bool, follow_symlinks: bool) -> (r: bool)
    ensures
        r == (is_dir && (follow_symlinks || !is_symlink)),
{
    is_dir && (follow_symlinks || !is_symlink)
}

/// What reading a path gave, once access failures were settled.
pub enum Probe {
    /// The path could not be read and the failure was resolved as a skip.
    Skipped,
    /// A file, or a directory that the walk does not descend into.
    Leaf,
    /// A directory to descend into, with its entries' names in listing order.
    Dir(Vec<Vec<u8>>),
}

/// What a probe gave, as the walk's rules see it.
pub enum ProbeModel {
    Skipped,
    Leaf,
    Dir(Seq<Seq<u8>>),
}

impl View for Probe {
    type V = ProbeModel;

    open spec fn view(&self) -> ProbeModel {
        match self {
            Probe::Skipped => ProbeModel::Skipped,
            Probe::Leaf => ProbeModel::Leaf,
            Probe::Dir(listing) => ProbeModel::Dir(names_of(listing@)),
        }
    }
}

/// The entries for the children `names` of the directory `entry`.
pub open spec fn child_entries(entry: (Seq<u8>, Seq<u8>), names: Seq<Seq<u8>>) -> Seq<(Seq<u8>, Seq<u8>)> {
    names.map_values(|c: Seq<u8>| (join_spec(entry.0, c), join_spec(entry.1, c)))
}

/// Whether the visitor is called for `entry`, given what probing it gave.
pub open spec fn plan_visits(tags: Seq<(Seq<u8>, TagKeepMode)>, probe: ProbeModel) -> bool {
    match probe {
        ProbeModel::Skipped => false,
        ProbeModel::Leaf => true,
        ProbeModel::Dir(listing) => kept_entries(tags, listing) is Some,
    }
}

/// The children of `entry` that the walk goes on into, in listing order.
pub open spec fn plan_children(
    tags: Seq<(Seq<u8>, TagKeepMode)>,
    entry: (Seq<u8>, Seq<u8>),
    probe: ProbeModel,
) -> Seq<(Seq<u8>, Seq<u8>)> {
    match probe {
        ProbeModel::Dir(listing) => match kept_entries(tags, listing) {
            Some(kept) => child_entries(entry, kept),
            None => Seq::empty(),
        },
        _ => Seq::empty(),
    }
}

/// What the walk does with one entry that passed the exclusion rules.
pub struct ScanPlan {
    /// Whether the visitor is called for the entry (before any child).
    pub visit: bool,
    /// The children to walk next, in listing order.
    pub children: Vec<WalkEntry>,
}

/// Decides, for an entry that no exclusion rule matched, whether it is
/// visited and which of its children the walk goes on into.
pub fn scan_path(tags: &TagRules, entry: &WalkEntry, probe: Probe) -> (r: ScanPlan)
    ensures
        r.visit == plan_visits(tags@, probe@),
        entries_of(r.children@) == plan_children(tags@, entry@, probe@),
{
    match probe {
        Probe::Skipped => ScanPlan { visit: false, children: Vec::new() },
        Probe::Leaf => ScanPlan { visit: true, children: Vec::new() },
        Probe::Dir(listing) => {
            match crate::tags::select_contents(tags, listing) {
                None => ScanPlan { visit: false, children: Vec::new() },
                Some(kept) => {
                    let mut children: Vec<WalkEntry> = Vec::new();
                    let mut i: usize = 0;
                    while i < kept.len()
                        invariant
                            0 <= i <= kept@.len(),
                            entries_of(children@) == child_entries(entry@, names_of(kept@).subrange(0, i as int)),
                        decreases kept@.len() - i,
                    {
                        let c = kept[i].as_slice();
                        let path = join(entry.path.as_slice(), c);
                        let name = join(entry.name.as_slice(), c);
                        let ghost before = children@;
                        children.push(WalkEntry { path, name });
                        i += 1;
                        assert(names_of(kept@)[i - 1] == kept@[i - 1]@);
                        assert(entries_of(children@) =~= entries_of(before).push(children@[i - 1]@));
                        assert(entries_of(children@) =~= child_entries(entry@, names_of(kept@).subrange(0, i as int)));
                    }
                    assert(names_of(kept@).subrange(0, kept@.len() as int) =~= names_of(kept@));
                    ScanPlan { visit: true, children }
                },
            }
        },
    }
}

/// `s` in reverse order.
pub open spec fn reversed<A>(s: Seq<A>) -> Seq<A> {
    Seq::new(s.len(), |i: int| s[s.len() - 1 - i])
}

/// Whether `e` is an entry for a child of the directory entry `p`.
pub open spec fn is_child_of(e: (Seq<u8>, Seq<u8>), p: (Seq<u8>, Seq<u8>)) -> bool {
    exists|c: Seq<u8>| e == (join_spec(p.0, c), join_spec(p.1, c))
}

/// The entries still to be walked. The next one is at the end of the stack,
/// so a directory's children come out in listing order and each subtree is
/// finished before the next sibling starts. Beside the stack the walker
/// keeps, for its contracts only, its root, the entries it handed out, and
/// those of them whose children it took in.
pub struct Walker {
    pending: Vec<WalkEntry>,
    root: Ghost<(Seq<u8>, Seq<u8>)>,
    taken: Ghost<Set<(Seq<u8>, Seq<u8>)>>,
    expanded: Ghost<Set<(Seq<u8>, Seq<u8>)>>,
    current: Ghost<Option<(Seq<u8>, Seq<u8>)>>,
}

impl View for Walker {
    type V = Seq<(Seq<u8>, Seq<u8>)>;

    closed spec fn view(&self) -> Seq<(Seq<u8>, Seq<u8>)> {
        entries_of(self.pending@)
    }
}

impl Walker {
    /// The root entry of the walk.
    pub closed spec fn root(&self) -> (Seq<u8>, Seq<u8>) {
        self.root@
    }

    /// The entries handed out so far.
    pub closed spec fn taken(&self) -> Set<(Seq<u8>, Seq<u8>)> {
        self.taken@
    }

    /// The entries whose children were taken in.
    pub closed spec fn expanded(&self) -> Set<(Seq<u8>, Seq<u8>)> {
        self.expanded@
    }

    /// The entry handed out last, until its children are taken in.
    pub closed spec fn current(&self) -> Option<(Seq<u8>, Seq<u8>)> {
        self.current@
    }

    /// Every entry on the stack is the root or a child of an expanded
    /// entry, and only entries that were handed out are expanded.
    pub open spec fn wf(&self) -> bool {
        &&& forall|i: int|
            0 <= i < self@.len() ==> (#[trigger] self@[i] == self.root() || exists|p: (Seq<u8>, Seq<u8>)|
                self.expanded().contains(p) && is_child_of(self@[i], p))
        &&& self.expanded().subset_of(self.taken())
        &&& self.current() matches Some(c) ==> self.taken().contains(c)
    }

    /// A walk of the single root `path`, named `name` in the archive.
    pub fn new(path: Vec<u8>, name: Vec<u8>) -> (r: Walker)
        ensures
            r@ == seq![(path@, name@)],
            r.wf(),
            r.root() == (path@, name@),
            r.taken() == Set::<(Seq<u8>, Seq<u8>)>::empty(),
            r.expanded() == Set::<(Seq<u8>, Seq<u8>)>::empty(),
            r.current() is None,
    {
        let mut pending: Vec<WalkEntry> = Vec::new();
        let ghost root = (path@, name@);
        pending.push(WalkEntry { path, name });
        let r = Walker {
            pending,
            root: Ghost(root),
            taken: Ghost(Set::empty()),
            expanded: Ghost(Set::empty()),
            current: Ghost(None),
        };
        assert(r@ =~= seq![root]);
        r
    }

    /// Whether nothing is left to walk.
    pub fn is_done(&self) -> (r: bool)
        ensures
            r == (self@.len() == 0),
    {
        self.pending.len() == 0
    }

    /// Takes the next entry that no exclusion rule matches; the excluded
    /// entries taken before it are dropped, with everything under them.
    /// The entry handed out is the root or a child of an expanded entry.
    pub fn next_entry(&mut self, filter: &PatternFilter) -> (r: Option<WalkEntry>)
        requires
            old(self).wf(),
        ensures
            final(self).wf(),
            final(self)@ == old(self)@.subrange(0, final(self)@.len() as int),
            forall|j: int|
                #![trigger old(self)@[j]]
                final(self)@.len() < j < old(self)@.len()
                    ==> excluded_by(filter@, old(self)@[j].0),
            final(self).root() == old(self).root(),
            final(self).expanded() == old(self).expanded(),
            match r {
                None => final(self)@.len() == 0
                    && (old(self)@.len() > 0 ==> excluded_by(filter@, old(self)@[0].0))
                    && final(self).taken() == old(self).taken()
                    && final(self).current() == old(self).current(),
                Some(e) => final(self)@.len() < old(self)@.len()
                    && e@ == old(self)@[final(self)@.len() as int]
                    && !excluded_by(filter@, e.path@)
                    && (e@ == final(self).root() || exists|p: (Seq<u8>, Seq<u8>)|
                        final(self).expanded().contains(p) && is_child_of(e@, p))
                    && final(self).taken() == old(self).taken().insert(e@)
                    && final(self).current() == Some(e@),
            },
    {
        let ghost start = self@;
        let ghost startv = self.pending@;
        while self.pending.len() > 0
            invariant
                self.wf(),
                self.root() == old(self).root(),
                self.expanded() == old(self).expanded(),
                self.taken() == old(self).taken(),
                self.current() == old(self).current(),
                start == old(self)@,
                start == entries_of(startv),
                self.pending@.len() <= startv.len(),
                self.pending@ == startv.subrange(0, self.pending@.len() as int),
                forall|j: int|
                    #![trigger startv[j]]
                    self.pending@.len() <= j < startv.len() ==> excluded_by(filter@, startv[j].path@),
            decreases self.pending@.len(),
        {
            let ghost before = self@;
            let entry = self.pending.pop().unwrap();
            assert(self.pending@ =~= startv.subrange(0, self.pending@.len() as int));
            assert(self@ =~= start.subrange(0, self@.len() as int));
            assert(entry@ == start[self@.len() as int]);
            assert(entry@ == before[self@.len() as int]);
            assert forall|i: int| 0 <= i < self@.len() implies (#[trigger] self@[i] == self.root() || exists|p: (Seq<u8>, Seq<u8>)|
                self.expanded().contains(p) && is_child_of(self@[i], p)) by {
                assert(self@[i] == before[i]);
                assert(before[i] == self.root() || exists|p: (Seq<u8>, Seq<u8>)|
                    self.expanded().contains(p) && is_child_of(before[i], p));
            }
            let ghost at = self@.len() as int;
            assert(entry@ == self.root() || exists|p: (Seq<u8>, Seq<u8>)|
                self.expanded().contains(p) && is_child_of(before[at], p));
            if !filter.is_excluded(entry.path.as_slice()) {
                proof {
                    self.taken@ = self.taken@.insert(entry@);
                    self.current@ = Some(entry@);
                    assert(self.expanded().subset_of(self.taken()));
                }
                return Some(entry);
            }
        }
        assert(self@ =~= start.subrange(0, 0));
        None
    }

    /// Takes in the children of `entry`, the entry handed out last, as
    /// `scan_path` plans them from `probe`, to be walked next, first child
    /// first. Returns whether the visitor is to be called for `entry`.
    pub fn expand(&mut self, tags: &TagRules, entry: &WalkEntry, probe: Probe) -> (visit: bool)
        requires
            old(self).wf(),
            old(self).current() == Some(entry@),
        ensures
            final(self).wf(),
            visit == plan_visits(tags@, probe@),
            final(self)@ == old(self)@ + reversed(plan_children(tags@, entry@, probe@)),
            final(self).root() == old(self).root(),
            final(self).taken() == old(self).taken(),
            final(self).expanded() == old(self).expanded().insert(entry@),
            final(self).current() is None,
    {
        let ghost pv = probe@;
        let plan = scan_path(tags, entry, probe);
        proof {
            self.expanded@ = self.expanded@.insert(entry@);
            self.current@ = None;
            assert forall|i: int| 0 <= i < self@.len() implies (#[trigger] self@[i] == self.root() || exists|p: (Seq<u8>, Seq<u8>)|
                self.expanded().contains(p) && is_child_of(self@[i], p)) by {
                assert(self@[i] == old(self)@[i]);
                assert(old(self)@[i] == old(self).root() || exists|p: (Seq<u8>, Seq<u8>)|
                    old(self).expanded().contains(p) && is_child_of(old(self)@[i], p));
                if self@[i] != self.root() {
                    let p = choose|p: (Seq<u8>, Seq<u8>)| old(self).expanded().contains(p) && is_child_of(old(self)@[i], p);
                    assert(self.expanded().contains(p));
                }
            }
        }
        self.push_children(plan.children);
        proof {
            let kids = plan_children(tags@, entry@, pv);
            assert forall|j: int| 0 <= j < kids.len() implies is_child_of(#[trigger] kids[j], entry@) by {
                if let ProbeModel::Dir(listing) = pv {
                    if let Some(kept) = kept_entries(tags@, listing) {
                        let c = kept[j];
                        assert(kids[j] == (join_spec(entry@.0, c), join_spec(entry@.1, c)));
                    }
                }
            }
            let n = old(self)@.len();
            assert(self.expanded().subset_of(self.taken()));
            assert forall|i: int| 0 <= i < self@.len() implies (#[trigger] self@[i] == self.root() || exists|p: (Seq<u8>, Seq<u8>)|
                self.expanded().contains(p) && is_child_of(self@[i], p)) by {
                if i >= n {
                    let k = kids.len() - 1 - (i - n);
                    assert(self@[i] == kids[k]);
                    assert(self.expanded().contains(entry@));
                    assert(is_child_of(self@[i], entry@));
                }
            }
        }
        plan.visit
    }

    /// Schedules `children` to be walked next, first child first.
    fn push_children(&mut self, children: Vec<WalkEntry>)
        ensures
            final(self)@ == old(self)@ + reversed(entries_of(children@)),
            final(self).root() == old(self).root(),
            final(self).taken() == old(self).taken(),
            final(self).expanded() == old(self).expanded(),
            final(self).current() == old(self).current(),
    {
        let ghost all = entries_of(children@);
        let ghost start = self@;
        let mut rest = children;
        while rest.len() > 0
            invariant
                start == old(self)@,
                self.root() == old(self).root(),
                self.taken() == old(self).taken(),
                self.expanded() == old(self).expanded(),
                self.current() == old(self).current(),
                entries_of(rest@) == all.subrange(0, rest@.len() as int),
                self@ == start + reversed(all.subrange(rest@.len() as int, all.len() as int)),
                rest@.len() <= all.len(),
            decreases rest@.len(),
        {
            let ghost before = self@;
            let ghost rb = rest@;
            let c = rest.pop().unwrap();
            assert(entries_of(rb)[rest@.len() as int] == c@);
            assert(all.subrange(0, rb.len() as int)[rest@.len() as int] == all[rest@.len() as int]);
            assert(c@ == all[rest@.len() as int]);
            self.pending.push(c);
            assert(self@ =~= before.push(c@));
            assert(entries_of(rest@) =~= all.subrange(0, rest@.len() as int));
            assert(self@ =~= start + reversed(all.subrange(rest@.len() as int, all.len() as int)));
        }
        assert(all.subrange(0, all.len() as int) =~= all);
    }
}

/// In a walk whose entries were all handed out through `filter`, no entry
/// that the filter excludes was ever expanded, and every entry still to be
/// walked, but the root, is a child of an expanded entry that the filter
/// admits: nothing is taken in from an excluded directory.
pub proof fn lemma_excluded_dir_never_entered(w: Walker, filter: Seq<Seq<char>>, p: (Seq<u8>, Seq<u8>))
    requires
        w.wf(),
        forall|t: (Seq<u8>, Seq<u8>)| #[trigger] w.taken().contains(t) ==> !excluded_by(filter, t.0),
        excluded_by(filter, p.0),
    ensures
        !w.expanded().contains(p),
        forall|i: int|
            0 <= i < w@.len() && #[trigger] w@[i] != w.root() ==> exists|q: (Seq<u8>, Seq<u8>)|
                w.expanded().contains(q) && !excluded_by(filter, q.0) && is_child_of(w@[i], q),
{
    assert forall|i: int| 0 <= i < w@.len() && #[trigger] w@[i] != w.root() implies exists|q: (Seq<u8>, Seq<u8>)|
        w.expanded().contains(q) && !excluded_by(filter, q.0) && is_child_of(w@[i], q) by {
        let q = choose|q: (Seq<u8>, Seq<u8>)| w.expanded().contains(q) && is_child_of(w@[i], q);
        assert(w.taken().contains(q));
    }
    if w.expanded().contains(p) {
        assert(w.taken().contains(p));
    }
}

/// A directory whose first marker says to keep nothing is not visited, and
/// the walk goes into none of its entries, so nothing under it is visited.
pub proof fn lemma_marker_nothing_leaves_dir_out(
    tags: Seq<(Seq<u8>, TagKeepMode)>,
    dir: (Seq<u8>, Seq<u8>),
    listing: Seq<Seq<u8>>,
    k: int,
)
    requires
        is_first_marker(tags, listing, k),
        mode_of(tags, listing[k]) == Some(TagKeepMode::Nothing),
    ensures
        !plan_visits(tags, ProbeModel::Dir(listing)),
        plan_children(tags, dir, ProbeModel::Dir(listing)) == Seq::<(Seq<u8>, Seq<u8>)>::empty(),
{
    lemma_first_marker_unique(tags, listing, k);
}

/// A directory whose first marker says to keep the marker only is visited,
/// and the marker is the one entry of it that the walk goes into.
pub proof fn lemma_marker_tag_only_keeps_marker(
    tags: Seq<(Seq<u8>, TagKeepMode)>,
    dir: (Seq<u8>, Seq<u8>),
    listing: Seq<Seq<u8>>,
    k: int,
)
    requires
        is_first_marker(tags, listing, k),
        mode_of(tags, listing[k]) == Some(TagKeepMode::TagOnly),
    ensures
        plan_visits(tags, ProbeModel::Dir(listing)),
        plan_children(tags, dir, ProbeModel::Dir(listing))
            == seq![(join_spec(dir.0, listing[k]), join_spec(dir.1, listing[k]))],
{
    lemma_first_marker_unique(tags, listing, k);
    assert(child_entries(dir, seq![listing[k]]) =~= seq![(join_spec(dir.0, listing[k]), join_spec(dir.1, listing[k]))]);
}

} // verus!
