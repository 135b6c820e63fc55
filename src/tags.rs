//! Tag rules: marker file names that change how much of a directory is kept.
use vstd::prelude::*;

verus! {

/// What a directory keeps when one of its entries is a marker.
#[derive(Debug, Clone, Copy, PartialEq, Eq, Structural)]
pub enum TagKeepMode {
    /// The directory and everything in it are left out.
    Nothing,
    /// The directory is kept with the marker as its only entry.
    TagOnly,
    /// The directory is kept whole; the marker has no effect.
    All,
}

/// One marker file name with its mode.
pub struct TagRule {
    pub name: Vec<u8>,
    pub mode: TagKeepMode,
}

impl View for TagRule {
    type V = (Seq<u8>, TagKeepMode);

    open spec fn view(&self) -> (Seq<u8>, TagKeepMode) {
        (self.name@, self.mode)
    }
}

/// Whether `i` is the first position in `rules` whose name is `name`.
pub open spec fn is_first_rule(rules: Seq<(Seq<u8>, TagKeepMode)>, name: Seq<u8>, i: int) -> bool {
    &&& 0 <= i < rules.len()
    &&& rules[i].0 == name
    &&& forall|j: int| 0 <= j < i ==> (#[trigger] rules[j]).0 != name
}

/// The mode that `rules` give to an entry called `name`: that of the first
/// rule with this name, if any.
pub open spec fn mode_of(rules: Seq<(Seq<u8>, TagKeepMode)>, name: Seq<u8>) -> Option<TagKeepMode> {
    if exists|i: int| is_first_rule(rules, name, i) {
        Some(rules[choose|i: int| is_first_rule(rules, name, i)].1)
    } else {
        None
    }
}

/// Whether `k` is the first position of `listing` that holds a marker.
pub open spec fn is_first_marker(
    rules: Seq<(Seq<u8>, TagKeepMode)>,
    listing: Seq<Seq<u8>>,
    k: int,
) -> bool {
    &&& 0 <= k < listing.len()
    &&& mode_of(rules, listing[k]) is Some
    &&& forall|j: int| 0 <= j < k ==> mode_of(rules, #[trigger] listing[j]) is None
}

/// The position of the first marker of `listing`, if it holds one.
pub open spec fn first_marker(rules: Seq<(Seq<u8>, TagKeepMode)>, listing: Seq<Seq<u8>>) -> Option<int> {
    if exists|k: int| is_first_marker(rules, listing, k) {
        Some(choose|k: int| is_first_marker(rules, listing, k))
    } else {
        None
    }
}

/// The entries of a directory listed as `listing` that the walk goes on
/// into, or `None` when the directory is left out. Only the first marker of
/// the listing counts; entries after it are not looked at for markers.
pub open spec fn kept_entries(rules: Seq<(Seq<u8>, TagKeepMode)>, listing: Seq<Seq<u8>>) -> Option<Seq<Seq<u8>>> {
    match first_marker(rules, listing) {
        None => Some(listing),
        Some(k) => match mode_of(rules, listing[k]).unwrap() {
            TagKeepMode::Nothing => None,
            TagKeepMode::TagOnly => Some(seq![listing[k]]),
            TagKeepMode::All => Some(listing),
        },
    }
}

/// The tag rules of one run, in declaration order.
pub struct TagRules {
    pub rules: Vec<TagRule>,
}

impl View for TagRules {
    type V = Seq<(Seq<u8>, TagKeepMode)>;

    open spec fn view(&self) -> Seq<(Seq<u8>, TagKeepMode)> {
        self.rules@.map_values(|r: TagRule| r@)
    }
}

proof fn lemma_first_unique(rules: Seq<(Seq<u8>, TagKeepMode)>, name: Seq<u8>, i: int)
    requires
        is_first_rule(rules, name, i),
    ensures
        mode_of(rules, name) == Some(rules[i].1),
{
    let c = choose|c: int| is_first_rule(rules, name, c);
    assert(is_first_rule(rules, name, c));
    if c < i {
        assert(rules[c].0 != name);
    } else if i < c {
        assert(rules[i].0 != name);
    }
}

/// The first marker position is the one that `first_marker` names.
pub proof fn lemma_first_marker_unique(
    rules: Seq<(Seq<u8>, TagKeepMode)>,
    listing: Seq<Seq<u8>>,
    k: int,
)
    requires
        is_first_marker(rules, listing, k),
    ensures
        first_marker(rules, listing) == Some(k),
{
    let c = choose|c: int| is_first_marker(rules, listing, c);
    assert(is_first_marker(rules, listing, c));
    if c < k {
        assert(mode_of(rules, listing[c]) is None);
    } else if k < c {
        assert(mode_of(rules, listing[k]) is None);
    }
}

impl TagRules {
    /// No markers at all.
    pub fn new() -> (r: TagRules)
        ensures
            r@ == Seq::<(Seq<u8>, TagKeepMode)>::empty(),
    {
        TagRules { rules: Vec::new() }
    }

    /// Adds a marker after the existing ones; an earlier rule of the same
    /// name keeps precedence.
    pub fn push(&mut self, rule: TagRule)
        ensures
            final(self)@ == old(self)@.push(rule@),
    {
        self.rules.push(rule);
        assert(self@ =~= old(self)@.push(rule@));
    }

    /// The mode of the first rule named `name`.
    pub fn mode_of(&self, name: &[u8]) -> (r: Option<TagKeepMode>)
        ensures
            r == mode_of(self@, name@),
    {
        let mut i: usize = 0;
        while i < self.rules.len()
            invariant
                0 <= i <= self.rules@.len(),
                forall|j: int| 0 <= j < i ==> (#[trigger] self@[j]).0 != name@,
            decreases self.rules@.len() - i,
        {
            let rule = &self.rules[i];
            if bytes_eq(rule.name.as_slice(), name) {
                proof {
                    lemma_first_unique(self@, name@, i as int);
                }
                return Some(rule.mode);
            }
            i += 1;
        }
        proof {
            if exists|c: int| is_first_rule(self@, name@, c) {
                let c = choose|c: int| is_first_rule(self@, name@, c);
                assert(self@[c].0 != name@);
            }
        }
        None
    }
}

/// Byte-wise equality of two slices.
pub fn bytes_eq(a: &[u8], b: &[u8]) -> (r: bool)
    ensures
        r == (a@ == b@),
{
    if a.len() != b.len() {
        return false;
    }
    let mut i: usize = 0;
    while i < a.len()
        invariant
            a@.len() == b@.len(),
            0 <= i <= a@.len(),
            forall|j: int| 0 <= j < i ==> a@[j] == b@[j],
        decreases a@.len() - i,
    {
        if a[i] != b[i] {
            return false;
        }
        i += 1;
    }
    assert(a@ =~= b@);
    true
}

/// The byte strings held by a sequence of byte vectors.
pub open spec fn names_of(v: Seq<Vec<u8>>) -> Seq<Seq<u8>> {
    v.map_values(|e: Vec<u8>| e@)
}

/// Chooses which entries of a directory listing the walk goes on into, by
/// the first marker in listing order; `None` when the directory is left out.
pub fn select_contents(tags: &TagRules, listing: Vec<Vec<u8>>) -> (r: Option<Vec<Vec<u8>>>)
    ensures
        match kept_entries(tags@, names_of(listing@)) {
            None => r is None,
            Some(kept) => r matches Some(v) && names_of(v@) == kept,
        },
{
    let ghost names = names_of(listing@);
    let mut entries = listing;
    let mut k: usize = 0;
    while k < entries.len()
        invariant
            names_of(entries@) == names,
            names == names_of(listing@),
            0 <= k <= names.len(),
            forall|j: int| 0 <= j < k ==> mode_of(tags@, #[trigger] names[j]) is None,
        decreases names.len() - k,
    {
        let found = tags.mode_of(entries[k].as_slice());
        assert(names[k as int] == entries@[k as int]@);
        match found {
            Some(mode) => {
                proof {
                    lemma_first_marker_unique(tags@, names, k as int);
                    assert(mode_of(tags@, names[k as int]) == Some(mode));
                    assert(kept_entries(tags@, names) == match mode {
                        TagKeepMode::Nothing => None,
                        TagKeepMode::TagOnly => Some(seq![names[k as int]]),
                        TagKeepMode::All => Some(names),
                    });
                }
                match mode {
                    TagKeepMode::Nothing => {
                        return None;
                    },
                    TagKeepMode::TagOnly => {
                        let marker = entries.swap_remove(k);
                        let mut kept: Vec<Vec<u8>> = Vec::new();
                        kept.push(marker);
                        assert(names_of(kept@) =~= seq![names[k as int]]);
                        return Some(kept);
                    },
                    TagKeepMode::All => {
                        return Some(entries);
                    },
                }
            },
            None => {},
        }
        k += 1;
    }
    proof {
        if exists|c: int| is_first_marker(tags@, names, c) {
            let c = choose|c: int| is_first_marker(tags@, names, c);
            assert(mode_of(tags@, names[c]) is None);
        }
    }
    Some(entries)
}

} // verus!
