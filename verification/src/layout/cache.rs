//! Layout that is kept from one pass to the next, and how it is checked.
use std::collections::HashMap;

use vstd::prelude::*;

use crate::layout::boxes::LayoutBox;
use crate::layout::tree::box_cacheable;
use crate::text;

verus! {

broadcast use vstd::std_specs::hash::group_hash_axioms;

/// What the layout of a box depends on: where it is placed, the size of its
/// container and the font size around it, each by the bits of the number.
#[derive(Clone, Copy, PartialEq, Eq, Hash, Debug, Structural)]
pub struct LayoutKey {
    pub x: u32,
    pub y: u32,
    pub cw: u32,
    pub ch: u32,
    pub fs: u32,
}

/// A box that has been laid out, what its layout depended on, and the generation
/// it belongs to.
#[derive(Debug)]
pub struct CachedFragment<F> {
    pub fragment: F,
    pub key: LayoutKey,
    pub cache_gen: u32,
}

/// Boxes that have been laid out, by their identity.
#[derive(Debug)]
pub struct LayoutCache<F> {
    pub entries: HashMap<u64, CachedFragment<F>>,
}

/// The box that can be used again, if there is one: laid out in the same
/// generation, and dependent on the same things.
pub open spec fn reusable<F>(
    entries: Map<u64, CachedFragment<F>>,
    id: u64,
    key: LayoutKey,
    generation: u32,
) -> Option<F> {
    if entries.dom().contains(id) && entries[id].cache_gen == generation && entries[id].key
        == key {
        Some(entries[id].fragment)
    } else {
        None
    }
}

impl<F> LayoutCache<F> {
    /// An empty cache.
    pub fn new() -> (r: Self)
        ensures
            r.entries@ == Map::<u64, CachedFragment<F>>::empty(),
    {
        LayoutCache { entries: HashMap::new() }
    }

    /// Finds the box that can be used again.
    pub fn lookup(&self, id: u64, key: LayoutKey, generation: u32) -> (r: Option<&F>)
        ensures
            match r {
                Some(f) => reusable(self.entries@, id, key, generation) == Some(*f),
                None => reusable(self.entries@, id, key, generation) is None,
            },
    {
        match self.entries.get(&id) {
            Some(e) => if e.cache_gen == generation && e.key == key {
                Some(&e.fragment)
            } else {
                None
            },
            None => None,
        }
    }

    /// Keeps a box that has been laid out, in place of an earlier one.
    pub fn insert(&mut self, id: u64, fragment: F, key: LayoutKey, generation: u32)
        ensures
            final(self).entries@ == old(self).entries@.insert(
                id,
                CachedFragment { fragment, key, cache_gen: generation },
            ),
    {
        self.entries.insert(id, CachedFragment { fragment, key, cache_gen: generation });
    }
}

/// A box that was kept is found again, as long as nothing that its layout
/// depends on has changed.
pub proof fn kept_boxes_are_found<F>(
    entries: Map<u64, CachedFragment<F>>,
    id: u64,
    fragment: F,
    key: LayoutKey,
    generation: u32,
    other: LayoutKey,
    later: u32,
)
    ensures
        ({
            let kept = entries.insert(
                id,
                CachedFragment { fragment, key, cache_gen: generation },
            );
            reusable(kept, id, other, later) == if other == key && later == generation {
                Some(fragment)
            } else {
                None
            }
        }),
{
}

/// Keeping a box changes nothing about those with other identities.
pub proof fn other_boxes_stay<F>(
    entries: Map<u64, CachedFragment<F>>,
    id: u64,
    e: CachedFragment<F>,
    other: u64,
    key: LayoutKey,
    generation: u32,
)
    requires
        other != id,
    ensures
        reusable(entries.insert(id, e), other, key, generation) == reusable(
            entries,
            other,
            key,
            generation,
        ),
{
}

/// The state of layout from one pass to the next.
#[derive(Clone, Copy, Debug, PartialEq, Eq, Structural)]
pub struct LayoutSession {
    /// A cache is in use.
    pub has_cache: bool,
    /// The cache is left alone for a while.
    pub force_no_cache: bool,
    /// The tree has floats, on which layout depends in ways that no key holds.
    pub has_floats: bool,
    pub generation: u32,
    pub laid_out: u64,
    pub reused: u64,
    /// Whether layout is checked, where the program says so.
    pub verify_override: Option<bool>,
    /// Whether layout is checked, as the environment says, once it was asked.
    pub verify_env: Option<bool>,
}

/// The cache may be used.
pub open spec fn is_active(s: LayoutSession) -> bool {
    !s.force_no_cache && s.has_cache && !s.has_floats
}

impl LayoutSession {
    /// Without a cache.
    pub fn new() -> (r: Self)
        ensures
            r == (LayoutSession {
                has_cache: false,
                force_no_cache: false,
                has_floats: false,
                generation: 0,
                laid_out: 0,
                reused: 0,
                verify_override: None,
                verify_env: None,
            }),
    {
        LayoutSession {
            has_cache: false,
            force_no_cache: false,
            has_floats: false,
            generation: 0,
            laid_out: 0,
            reused: 0,
            verify_override: None,
            verify_env: None,
        }
    }

    /// Whether the cache may be used.
    pub fn layout_cache_active(&self) -> (r: bool)
        ensures
            r == is_active(*self),
    {
        !self.force_no_cache && self.has_cache && !self.has_floats
    }

    /// Notes whether the tree that is laid out has floats, where a cache is in
    /// use.
    pub fn note_floats(&mut self, floats: bool)
        ensures
            *final(self) == (LayoutSession {
                has_floats: if old(self).has_cache {
                    floats
                } else {
                    old(self).has_floats
                },
                ..*old(self)
            }),
    {
        if self.has_cache {
            self.has_floats = floats;
        }
    }

    /// Counts a box that was laid out.
    pub fn count_laid_out(&mut self)
        ensures
            *final(self) == (LayoutSession {
                laid_out: if old(self).laid_out < u64::MAX {
                    (old(self).laid_out + 1) as u64
                } else {
                    u64::MAX
                },
                ..*old(self)
            }),
    {
        if self.laid_out < u64::MAX {
            self.laid_out = self.laid_out + 1;
        }
    }

    /// Counts a box that was used again.
    pub fn count_reused(&mut self)
        ensures
            *final(self) == (LayoutSession {
                reused: if old(self).reused < u64::MAX {
                    (old(self).reused + 1) as u64
                } else {
                    u64::MAX
                },
                ..*old(self)
            }),
    {
        if self.reused < u64::MAX {
            self.reused = self.reused + 1;
        }
    }

    /// Whether layout is checked: as the program says or else as the environment
    /// does, whose answer `env` counts only the first time.
    pub fn layout_verify_enabled(&mut self, env: Option<&str>) -> (r: bool)
        ensures
            r == match (old(self).verify_override, old(self).verify_env) {
                (Some(v), _) => v,
                (None, Some(v)) => v,
                (None, None) => env is Some && asks_to_verify(env->0@),
            },
            *final(self) == (LayoutSession {
                verify_env: if old(self).verify_override is None {
                    Some(r)
                } else {
                    old(self).verify_env
                },
                ..*old(self)
            }),
    {
        if let Some(v) = self.verify_override {
            return v;
        }
        if let Some(v) = self.verify_env {
            return v;
        }
        let v: bool = match env {
            Some(s) => says_verify(s),
            None => false,
        };
        self.verify_env = Some(v);
        v
    }
}

/// What the environment says to have layout checked: `1`, or `true` in any case.
pub open spec fn asks_to_verify(s: Seq<char>) -> bool {
    s == "1"@ || text::lowered(s) == "true"@
}

fn says_verify(s: &str) -> (r: bool)
    ensures
        r == asks_to_verify(s@),
{
    let chars: Vec<char> = text::chars_of(s);
    let lower: Vec<char> = text::lowercase(chars.as_slice());
    text::is_text(chars.as_slice(), "1") || text::is_text(lower.as_slice(), "true")
}

/// Puts a cache of a generation in use, or none, and starts to count anew.
pub fn set_layout_cache(s: &mut LayoutSession, in_use: bool, generation: u32)
    ensures
        *final(s) == (LayoutSession {
            has_cache: in_use,
            generation,
            laid_out: 0,
            reused: 0,
            ..*old(s)
        }),
{
    s.has_cache = in_use;
    s.generation = generation;
    s.laid_out = 0;
    s.reused = 0;
}

/// How many boxes were laid out and how many used again since the cache was put
/// in use.
pub fn relayout_stats(s: &LayoutSession) -> (r: (u64, u64))
    ensures
        r == (s.laid_out, s.reused),
{
    (s.laid_out, s.reused)
}

/// Has layout checked or not, or leaves it to the environment.
pub fn set_layout_verify(s: &mut LayoutSession, on: Option<bool>)
    ensures
        *final(s) == (LayoutSession { verify_override: on, ..*old(s) }),
{
    s.verify_override = on;
}

/// The box that can be used in place of `b`, if there is one: the cache may be
/// used, the box can be cached, nothing about its node has changed, and it was
/// kept under the same key.
pub open spec fn stand_in<N, F>(
    s: LayoutSession,
    entries: Map<u64, CachedFragment<F>>,
    b: LayoutBox<N>,
    clean: bool,
    key: LayoutKey,
) -> Option<F> {
    if is_active(s) && crate::layout::tree::is_cacheable(b) && clean {
        reusable(entries, b.node_id->0, key, s.generation)
    } else {
        None
    }
}

/// Finds the box that can be used in place of `b`.
pub fn cached_fragment<'a, N, F>(
    s: &LayoutSession,
    cache: &'a LayoutCache<F>,
    b: &LayoutBox<N>,
    clean: bool,
    key: LayoutKey,
) -> (r: Option<&'a F>)
    ensures
        match r {
            Some(f) => stand_in(*s, cache.entries@, *b, clean, key) == Some(*f),
            None => stand_in(*s, cache.entries@, *b, clean, key) is None,
        },
{
    if s.layout_cache_active() && box_cacheable(b) && clean {
        match b.node_id {
            Some(id) => cache.lookup(id, key, s.generation),
            None => None,
        }
    } else {
        None
    }
}

/// Where a box lies and how much space it takes up, by the bits of the numbers.
#[derive(Debug)]
pub struct Geometry {
    pub content: [u32; 4],
    pub padding: [u32; 4],
    pub margin: [u32; 4],
    /// The width of the border on sides that have none of their own.
    pub border: u32,
    /// The widths of the border on the sides that have their own.
    pub side_borders: [Option<u32>; 4],
    pub children: Vec<Geometry>,
}

/// In what two boxes differ.
#[derive(Clone, Copy, Debug, PartialEq, Eq, Structural)]
pub enum Divergence {
    Content,
    Padding,
    Margin,
    Border,
    ChildCount,
}

/// In what two boxes differ, without those inside them.
pub open spec fn own_difference(a: Geometry, b: Geometry) -> Option<Divergence> {
    if a.content@ != b.content@ {
        Some(Divergence::Content)
    } else if a.padding@ != b.padding@ {
        Some(Divergence::Padding)
    } else if a.margin@ != b.margin@ {
        Some(Divergence::Margin)
    } else if a.border != b.border || a.side_borders@ != b.side_borders@ {
        Some(Divergence::Border)
    } else if a.children@.len() != b.children@.len() {
        Some(Divergence::ChildCount)
    } else {
        None
    }
}

/// The way to the first box that differs, a box before those inside it, and in
/// what it does.
pub open spec fn first_difference(a: Geometry, b: Geometry) -> Option<(Seq<usize>, Divergence)>
    decreases a, a.children@.len() + 1,
{
    match own_difference(a, b) {
        Some(d) => Some((Seq::empty(), d)),
        None => difference_among(a, b, a.children@.len()),
    }
}

/// The first difference inside the first `n` children.
pub open spec fn difference_among(a: Geometry, b: Geometry, n: nat) -> Option<
    (Seq<usize>, Divergence),
>
    decreases a, n,
{
    if n == 0 || n > a.children@.len() {
        None
    } else {
        proof {
            part_is_smaller(a, n - 1);
        }
        match difference_among(a, b, (n - 1) as nat) {
            Some(d) => Some(d),
            None => match first_difference(a.children@[n - 1], b.children@[n - 1]) {
                Some((way, d)) => Some((seq![(n - 1) as usize] + way, d)),
                None => None,
            },
        }
    }
}

/// A box is larger than those inside it.
pub proof fn part_is_smaller(a: Geometry, i: int)
    requires
        0 <= i < a.children@.len(),
    ensures
        decreases_to!(a => a.children@[i]),
{
    assert(decreases_to!(a => a.children));
    assert(decreases_to!(a.children => a.children@));
    assert(decreases_to!(a.children@ => a.children@[i]));
}

/// Both boxes, and those inside them, lie in the same places and take up the
/// same space.
pub open spec fn same_geometry(a: Geometry, b: Geometry) -> bool
    decreases a, a.children@.len() + 1,
{
    own_difference(a, b) is None && same_among(a, b, a.children@.len())
}

/// The boxes inside the first `n` children lie in the same places.
pub open spec fn same_among(a: Geometry, b: Geometry, n: nat) -> bool
    decreases a, n,
{
    if n == 0 || n > a.children@.len() {
        true
    } else {
        proof {
            part_is_smaller(a, n - 1);
        }
        same_among(a, b, (n - 1) as nat) && same_geometry(a.children@[n - 1], b.children@[n - 1])
    }
}

/// A difference is found if and only if there is one.
pub proof fn differences_are_found(a: Geometry, b: Geometry)
    ensures
        first_difference(a, b) is None <==> same_geometry(a, b),
    decreases a, a.children@.len() + 1,
{
    if own_difference(a, b) is None {
        differences_among_are_found(a, b, a.children@.len());
    }
}

proof fn differences_among_are_found(a: Geometry, b: Geometry, n: nat)
    requires
        n <= a.children@.len(),
    ensures
        difference_among(a, b, n) is None <==> same_among(a, b, n),
    decreases a, n,
{
    if n > 0 {
        differences_among_are_found(a, b, (n - 1) as nat);
        part_is_smaller(a, n - 1);
        differences_are_found(a.children@[n - 1], b.children@[n - 1]);
    }
}

proof fn difference_stays(a: Geometry, b: Geometry, n: nat, m: nat)
    requires
        n <= m <= a.children@.len(),
        difference_among(a, b, n) is Some,
    ensures
        difference_among(a, b, m) == difference_among(a, b, n),
    decreases m,
{
    if n < m {
        difference_stays(a, b, n, (m - 1) as nat);
    }
}

fn same_bits(a: &[u32; 4], b: &[u32; 4]) -> (r: bool)
    ensures
        r == (a@ == b@),
{
    let r: bool = a[0] == b[0] && a[1] == b[1] && a[2] == b[2] && a[3] == b[3];
    proof {
        if r {
            assert(a@ =~= b@);
        }
    }
    r
}

fn same_sides(a: &[Option<u32>; 4], b: &[Option<u32>; 4]) -> (r: bool)
    ensures
        r == (a@ == b@),
{
    let r: bool = a[0] == b[0] && a[1] == b[1] && a[2] == b[2] && a[3] == b[3];
    proof {
        if r {
            assert(a@ =~= b@);
        }
    }
    r
}

fn difference_of(a: &Geometry, b: &Geometry) -> (r: Option<Divergence>)
    ensures
        r == own_difference(*a, *b),
{
    if !same_bits(&a.content, &b.content) {
        Some(Divergence::Content)
    } else if !same_bits(&a.padding, &b.padding) {
        Some(Divergence::Padding)
    } else if !same_bits(&a.margin, &b.margin) {
        Some(Divergence::Margin)
    } else if a.border != b.border || !same_sides(&a.side_borders, &b.side_borders) {
        Some(Divergence::Border)
    } else if a.children.len() != b.children.len() {
        Some(Divergence::ChildCount)
    } else {
        None
    }
}

/// The way to a difference, and what it is.
pub open spec fn difference_view(e: (Vec<usize>, Divergence)) -> (Seq<usize>, Divergence) {
    (e.0@, e.1)
}

/// Compares two trees of boxes. Where they differ, the error holds the way to
/// the first box that does, and in what.
pub fn geometry_equal(a: &Geometry, b: &Geometry) -> (r: Result<(), (Vec<usize>, Divergence)>)
    ensures
        match r {
            Ok(_) => first_difference(*a, *b) is None,
            Err(e) => first_difference(*a, *b) == Some(difference_view(e)),
        },
    decreases a,
{
    if let Some(d) = difference_of(a, b) {
        let here: Vec<usize> = Vec::new();
        assert(here@ =~= Seq::<usize>::empty());
        return Err((here, d));
    }
    let mut i: usize = 0;
    while i < a.children.len()
        invariant
            i <= a.children@.len(),
            own_difference(*a, *b) is None,
            difference_among(*a, *b, i as nat) is None,
        decreases a.children@.len() - i,
    {
        proof {
            part_is_smaller(*a, i as int);
        }
        if let Err((rest, d)) = geometry_equal(&a.children[i], &b.children[i]) {
            let mut way: Vec<usize> = Vec::new();
            way.push(i);
            let mut k: usize = 0;
            while k < rest.len()
                invariant
                    k <= rest@.len(),
                    way@ =~= seq![i] + rest@.take(k as int),
                decreases rest@.len() - k,
            {
                way.push(rest[k]);
                k = k + 1;
            }
            proof {
                assert(rest@.take(k as int) =~= rest@);
                difference_stays(*a, *b, (i + 1) as nat, a.children@.len());
            }
            return Err((way, d));
        }
        i = i + 1;
    }
    Ok(())
}

/// A box that was kept is not used where it lies elsewhere, or where the size or the
/// font size around it is another, nor in another generation.
pub proof fn changed_boxes_are_not_found<F>(
    entries: Map<u64, CachedFragment<F>>,
    id: u64,
    fragment: F,
    key: LayoutKey,
    generation: u32,
    other: LayoutKey,
    later: u32,
)
    requires
        other.x != key.x || other.y != key.y || other.cw != key.cw || other.ch != key.ch || other.fs
            != key.fs || later != generation,
    ensures
        reusable(
            entries.insert(id, CachedFragment { fragment, key, cache_gen: generation }),
            id,
            other,
            later,
        ) is None,
{
}

/// A cache is used only where there is one, it is not switched off, and there are no
/// floats; and then only for a box with an identity whose node has not changed.
pub proof fn caches_are_used_with_care<N, F>(
    s: LayoutSession,
    entries: Map<u64, CachedFragment<F>>,
    b: LayoutBox<N>,
    clean: bool,
    key: LayoutKey,
)
    requires
        stand_in(s, entries, b, clean, key) is Some,
    ensures
        s.has_cache,
        !s.force_no_cache,
        !s.has_floats,
        clean,
        b.node_id matches Some(id) && entries.dom().contains(id) && entries[id].key == key
            && entries[id].cache_gen == s.generation && stand_in(s, entries, b, clean, key) == Some(
            entries[id].fragment,
        ),
{
}

/// Two boxes that lie in the same place and take up the same space differ in nothing of
/// their own but how many boxes are inside them.
pub proof fn differences_are_real(a: Geometry, b: Geometry)
    ensures
        own_difference(a, b) == Some(Divergence::Content) ==> a.content@ != b.content@,
        own_difference(a, b) == Some(Divergence::Padding) ==> a.padding@ != b.padding@,
        own_difference(a, b) == Some(Divergence::Margin) ==> a.margin@ != b.margin@,
        own_difference(a, b) == Some(Divergence::Border) ==> a.border != b.border || a.side_borders@
            != b.side_borders@,
        own_difference(a, b) == Some(Divergence::ChildCount) ==> a.children@.len()
            != b.children@.len(),
        own_difference(a, b) is None ==> a.content@ == b.content@ && a.padding@ == b.padding@
            && a.margin@ == b.margin@ && a.border == b.border && a.side_borders@ == b.side_borders@
            && a.children@.len() == b.children@.len(),
{
}

} // verus!
