//! The bookkeeping of the loose-prop physics: which scene objects are loose, which loose props
//! are still cheap static instances (fixed colliders, no body, no entity) and which have been
//! promoted to dynamic entities, which one is being carried, and the breadth-first search that
//! decides what a disturbance promotes. The rigid-body simulation itself (poses, velocities,
//! collider shapes, ray and box queries) is floating point and is run by the caller, which hands
//! this module the integer answers of its queries: collider tags, touching sets, sleep flags.
use vstd::prelude::*;
use crate::props::{PropKind, lemma_prop_kind_names, prop_name};
use crate::text::str_eq;

verus! {

/// Prop kinds that are part of the building or landscape even when small enough to lift.
pub const FIXTURE_PROPS: [&'static str; 25] = [
    "kitchen_counter",
    "refrigerator",
    "stove",
    "sink",
    "toilet",
    "bathtub",
    "washer_dryer",
    "mailbox",
    "fence_section",
    "rug",
    "tree_oak",
    "tree_pine",
    "bush",
    "flower_patch",
    "hedge",
    "boulder",
    "grill",
    "picnic_table",
    "bench",
    "vending_machine",
    "filing_cabinet",
    "bookshelf",
    "wardrobe",
    "bed",
    "sofa",
];

/// Whether `name` is listed in [`FIXTURE_PROPS`].
pub open spec fn is_fixture_name(name: Seq<char>) -> bool {
    exists|i: int| 0 <= i < 25 && #[trigger] FIXTURE_PROPS@[i]@ == name
}

/// Whether props of kind `kind` are fixtures (never loose, whatever their size).
pub fn is_fixture(kind: PropKind) -> (r: bool)
    ensures
        r == is_fixture_name(prop_name(kind)),
{
    let name = kind.name();
    let mut i: usize = 0;
    while i < 25
        invariant
            0 <= i <= 25,
            name@ == prop_name(kind),
            forall|j: int| 0 <= j < i ==> #[trigger] FIXTURE_PROPS@[j]@ != name@,
        decreases 25 - i,
    {
        if str_eq(FIXTURE_PROPS[i], name) {
            return true;
        }
        i = i + 1;
    }
    false
}

/// What the loose-prop rules read of a top-level scene object's kind.
pub enum ObjectKindTag {
    /// A prop of the built-in library.
    Prop(PropKind),
    /// A group, with the mount of the prefab it was instantiated from, if any.
    Group(Option<String>),
    /// Anything else (a primitive, stairs, a character).
    Other,
}

/// Whether an object of this kind looks like something that could be moved: a prop that is not
/// a fixture, or a group placed from a floor-mounted prefab.
pub open spec fn looks_loose(kind: &ObjectKindTag) -> bool {
    match kind {
        ObjectKindTag::Prop(k) => !is_fixture_name(prop_name(*k)),
        ObjectKindTag::Group(mount) => match mount {
            Some(m) => m@ == "floor"@,
            None => false,
        },
        ObjectKindTag::Other => false,
    }
}

/// The loose-prop verdict for a top-level object, as [`classify`] decides it: `movable` is the
/// object's `"movable"` override, `constant_pose` whether its position, rotation and scale are all
/// constant tracks, and `human_carriable` is `None` when the object has no bounds, else whether
/// those bounds are within what a person can lift.
pub open spec fn classify_spec(
    movable: Option<bool>,
    constant_pose: bool,
    kind: &ObjectKindTag,
    human_carriable: Option<bool>,
) -> bool {
    &&& movable != Some(false)
    &&& constant_pose
    &&& (looks_loose(kind) || movable == Some(true))
    &&& match human_carriable {
        Some(c) => movable == Some(true) || c,
        None => false,
    }
}

/// Whether an object's kind looks loose (see [`looks_loose`]).
pub fn kind_looks_loose(kind: &ObjectKindTag) -> (r: bool)
    ensures
        r == looks_loose(kind),
{
    match kind {
        ObjectKindTag::Prop(k) => !is_fixture(*k),
        ObjectKindTag::Group(mount) => match mount {
            Some(m) => str_eq(m.as_str(), "floor"),
            None => false,
        },
        ObjectKindTag::Other => false,
    }
}

/// Decides whether a top-level object is a loose prop a person could lift. An explicit
/// `"movable": false` or an animated pose rules it out; otherwise it must look loose (or be marked
/// `"movable": true`), have bounds, and those bounds must be liftable unless it is marked movable.
pub fn classify(
    movable: Option<bool>,
    constant_pose: bool,
    kind: &ObjectKindTag,
    human_carriable: Option<bool>,
) -> (r: bool)
    ensures
        r == classify_spec(movable, constant_pose, kind, human_carriable),
        movable != Some(true) && human_carriable == Some(false) ==> !r,
        human_carriable is None ==> !r,
        movable == Some(false) || !constant_pose ==> !r,
{
    let forced_fixed = match movable {
        Some(m) => !m,
        None => false,
    };
    let forced_loose = match movable {
        Some(m) => m,
        None => false,
    };
    if forced_fixed || !constant_pose {
        return false;
    }
    if !(kind_looks_loose(kind) || forced_loose) {
        return false;
    }
    match human_carriable {
        Some(c) => forced_loose || c,
        None => false,
    }
}

/// What makes an object loose, whatever its kind: never without bounds, when pinned by
/// `"movable": false`, or when animated; never when too big for a person to lift unless marked
/// `"movable": true`; always when marked `"movable": true` with bounds and a constant pose; and,
/// unmarked, a liftable non-fixture prop is loose while a fixture never is.
pub proof fn lemma_classify_rules(movable: Option<bool>, constant_pose: bool, kind: &ObjectKindTag, human_carriable: Option<bool>)
    ensures
        human_carriable is None ==> !classify_spec(movable, constant_pose, kind, human_carriable),
        movable == Some(false) ==> !classify_spec(movable, constant_pose, kind, human_carriable),
        !constant_pose ==> !classify_spec(movable, constant_pose, kind, human_carriable),
        movable != Some(true) && human_carriable == Some(false) ==> !classify_spec(movable, constant_pose, kind, human_carriable),
        movable == Some(true) && constant_pose && human_carriable is Some ==> classify_spec(movable, constant_pose, kind, human_carriable),
        forall|k: PropKind|
            #![trigger is_fixture_name(prop_name(k))]
            movable is None && constant_pose && human_carriable == Some(true) && *kind == ObjectKindTag::Prop(k) ==> (
            classify_spec(movable, constant_pose, kind, human_carriable) <==> !is_fixture_name(prop_name(k))),
        movable is None && constant_pose && human_carriable == Some(true) && *kind == ObjectKindTag::Other ==> !classify_spec(
            movable,
            constant_pose,
            kind,
            human_carriable,
        ),
{
}

/// The tag a prop's colliders carry: its id plus one (zero marks colliders of the fixed world).
pub open spec fn collider_tag_spec(prop: usize) -> u128 {
    (prop + 1) as u128
}

/// The prop a collider tag names, if it belongs to a prop.
pub open spec fn prop_of_spec(user_data: u128) -> Option<usize> {
    if user_data == 0 {
        None
    } else {
        Some((user_data - 1) as usize)
    }
}

/// The tag that prop `prop`'s colliders carry.
pub fn collider_tag(prop: usize) -> (r: u128)
    ensures
        r == collider_tag_spec(prop),
{
    prop as u128 + 1
}

/// The prop id a collider's tag names, if it belongs to a prop.
pub fn prop_of(user_data: u128) -> (r: Option<usize>)
    ensures
        r == prop_of_spec(user_data),
{
    if user_data == 0 {
        None
    } else {
        Some((user_data - 1) as usize)
    }
}

/// A prop's tag always leads back to the prop, and a fixed collider's tag to none.
pub proof fn lemma_collider_tag_round_trip(prop: usize)
    ensures
        prop_of_spec(collider_tag_spec(prop)) == Some(prop),
        prop_of_spec(0) == None::<usize>,
{
}

/// The indices of the loose top-level objects, in scene order: those whose [`classify`] verdict
/// is `true`, except `skip` (the player's own body).
pub open spec fn loose_objects_spec(verdicts: Seq<bool>, skip: Option<usize>) -> Seq<usize>
    decreases verdicts.len(),
{
    if verdicts.len() == 0 {
        Seq::empty()
    } else {
        let i = (verdicts.len() - 1) as usize;
        loose_objects_spec(verdicts.drop_last(), skip) + if verdicts.last() && skip != Some(i) {
            seq![i]
        } else {
            Seq::empty()
        }
    }
}

/// The scene objects that become loose props, given each top-level object's [`classify`]
/// verdict and the object to leave out entirely, if any.
pub fn loose_objects(verdicts: &Vec<bool>, skip: Option<usize>) -> (r: Vec<usize>)
    ensures
        r@ == loose_objects_spec(verdicts@, skip),
{
    let mut out: Vec<usize> = Vec::new();
    let mut i: usize = 0;
    while i < verdicts.len()
        invariant
            0 <= i <= verdicts@.len(),
            out@ == loose_objects_spec(verdicts@.take(i as int), skip),
        decreases verdicts@.len() - i,
    {
        let skipped = match skip {
            Some(k) => k == i,
            None => false,
        };
        if verdicts[i] && !skipped {
            out.push(i);
        }
        proof {
            assert(verdicts@.take(i + 1).drop_last() =~= verdicts@.take(i as int));
        }
        i = i + 1;
    }
    assert(verdicts@.take(verdicts@.len() as int) =~= verdicts@);
    out
}

/// Where a loose prop is in its life.
#[derive(Debug, Clone, Copy, PartialEq, Eq, Structural)]
pub enum PropState {
    /// Still a static instance: it owns colliders `collider_start .. collider_start +
    /// collider_count` of the static collider pool, and has no body and no entity.
    Static { collider_start: u32, collider_count: u32 },
    /// Promoted: it has a dynamic body and entity slot `entity`; `settled` once the resting pose
    /// it fell asleep in has been published.
    Dynamic { entity: usize, settled: bool },
}

/// The entity slot of a promoted prop, `None` for a static instance.
pub open spec fn entity_spec(s: PropState) -> Option<usize> {
    match s {
        PropState::Static { .. } => None,
        PropState::Dynamic { entity, .. } => Some(entity),
    }
}

/// `s` with its `settled` flag set to `settled` (a static instance is left as it is).
pub open spec fn with_settled(s: PropState, settled: bool) -> PropState {
    match s {
        PropState::Static { .. } => s,
        PropState::Dynamic { entity, .. } => PropState::Dynamic { entity, settled },
    }
}

/// Sum of the first `i` collider counts: where the `i`-th prop's colliders start in the pool.
pub open spec fn collider_offset(counts: Seq<u32>, i: int) -> int
    decreases i,
{
    if i <= 0 {
        0
    } else {
        collider_offset(counts, i - 1) + counts[i - 1]
    }
}

/// What a [`PropLedger`] holds: per prop (by id) the scene object it is and its state, the
/// promoted props in promotion order (entity slot `k` belongs to `promoted[k]`), and the prop being
/// carried.
pub struct LedgerView {
    pub objects: Seq<usize>,
    pub states: Seq<PropState>,
    pub promoted: Seq<usize>,
    pub carried: Option<usize>,
}

/// The integer state of a map's loose props.
pub struct PropLedger {
    objects: Vec<usize>,
    states: Vec<PropState>,
    dynamic: Vec<usize>,
    held: Option<usize>,
}

impl View for PropLedger {
    type V = LedgerView;

    closed spec fn view(&self) -> LedgerView {
        LedgerView {
            objects: self.objects@,
            states: self.states@,
            promoted: self.dynamic@,
            carried: self.held,
        }
    }
}

impl LedgerView {
    /// Whether prop `p` exists and is still a static instance.
    pub open spec fn is_static(self, p: int) -> bool {
        0 <= p < self.states.len() && self.states[p] is Static
    }

    /// The ledger's invariant: entity slots are handed out in promotion order, so the promoted
    /// list and the dynamic states agree one to one, and only a promoted prop can be carried.
    pub open spec fn wf(self) -> bool {
        &&& self.objects.len() == self.states.len()
        &&& forall|k: int|
            0 <= k < self.promoted.len() ==> {
                &&& #[trigger] self.promoted[k] < self.states.len()
                &&& self.states[self.promoted[k] as int] is Dynamic && self.states[self.promoted[k] as int]->entity == k
            }
        &&& forall|p: int|
            0 <= p < self.states.len() && (#[trigger] self.states[p]) is Dynamic ==> {
                &&& self.states[p]->entity < self.promoted.len()
                &&& self.promoted[self.states[p]->entity as int] == p
            }
        &&& match self.carried {
            Some(p) => p < self.states.len() && self.states[p as int] is Dynamic,
            None => true,
        }
    }
}

/// The collider offsets only grow along the list.
pub proof fn lemma_collider_offset_monotone(counts: Seq<u32>, i: int, j: int)
    requires
        0 <= i <= j,
    ensures
        collider_offset(counts, i) <= collider_offset(counts, j),
    decreases j - i,
{
    if i < j {
        lemma_collider_offset_monotone(counts, i, j - 1);
    }
}

impl PropLedger {
    /// The ledger of a freshly loaded map: prop `i` is scene object `objects[i]`, a static instance
    /// owning the next `collider_counts[i]` colliders of the pool (laid out prop after prop).
    pub fn new(objects: Vec<usize>, collider_counts: &Vec<u32>) -> (r: Self)
        requires
            objects@.len() == collider_counts@.len(),
            collider_offset(collider_counts@, collider_counts@.len() as int) <= u32::MAX,
        ensures
            r@.wf(),
            r@.objects == objects@,
            r@.promoted == Seq::<usize>::empty(),
            r@.carried == None::<usize>,
            r@.states.len() == objects@.len(),
            forall|i: int|
                0 <= i < objects@.len() ==> #[trigger] r@.states[i] == (PropState::Static {
                    collider_start: collider_offset(collider_counts@, i) as u32,
                    collider_count: collider_counts@[i],
                }),
    {
        let ghost counts = collider_counts@;
        let mut states: Vec<PropState> = Vec::new();
        let mut start: u32 = 0;
        let mut i: usize = 0;
        while i < collider_counts.len()
            invariant
                counts == collider_counts@,
                collider_offset(counts, counts.len() as int) <= u32::MAX,
                0 <= i <= counts.len(),
                states@.len() == i,
                start == collider_offset(counts, i as int),
                forall|j: int|
                    0 <= j < i ==> #[trigger] states@[j] == (PropState::Static {
                        collider_start: collider_offset(counts, j) as u32,
                        collider_count: counts[j],
                    }),
            decreases counts.len() - i,
        {
            proof {
                lemma_collider_offset_monotone(counts, i + 1, counts.len() as int);
            }
            states.push(PropState::Static { collider_start: start, collider_count: collider_counts[i] });
            start = start + collider_counts[i];
            i = i + 1;
        }
        PropLedger { objects, states, dynamic: Vec::new(), held: None }
    }

    /// Number of loose props.
    pub fn len(&self) -> (r: usize)
        ensures
            r == self@.states.len(),
    {
        self.states.len()
    }

    /// The scene object of prop `prop`.
    pub fn object_index(&self, prop: usize) -> (r: usize)
        requires
            prop < self@.objects.len(),
        ensures
            r == self@.objects[prop as int],
    {
        self.objects[prop]
    }

    /// The state of prop `prop`.
    pub fn state(&self, prop: usize) -> (r: PropState)
        requires
            prop < self@.states.len(),
        ensures
            r == self@.states[prop as int],
    {
        self.states[prop]
    }

    /// Top-level object indices that are loose props, in prop order.
    pub fn movable_indices(&self) -> (r: Vec<usize>)
        ensures
            r@ == self@.objects,
    {
        self.objects.clone()
    }

    /// The prop id of scene object `object_index`, if it is a loose prop (the first such prop).
    pub fn prop_of_object(&self, object_index: usize) -> (r: Option<usize>)
        ensures
            match r {
                Some(p) => {
                    &&& p < self@.objects.len()
                    &&& self@.objects[p as int] == object_index
                    &&& forall|j: int| 0 <= j < p ==> self@.objects[j] != object_index
                },
                None => forall|j: int| 0 <= j < self@.objects.len() ==> self@.objects[j] != object_index,
            },
    {
        let mut i: usize = 0;
        while i < self.objects.len()
            invariant
                0 <= i <= self@.objects.len(),
                forall|j: int| 0 <= j < i ==> self@.objects[j] != object_index,
            decreases self@.objects.len() - i,
        {
            if self.objects[i] == object_index {
                return Some(i);
            }
            i = i + 1;
        }
        None
    }

    /// Whether `prop` is still a static instance (untouched: no body, no entity).
    pub fn is_static(&self, prop: usize) -> (r: bool)
        requires
            prop < self@.states.len(),
        ensures
            r == self@.is_static(prop as int),
    {
        match self.states[prop] {
            PropState::Static { .. } => true,
            PropState::Dynamic { .. } => false,
        }
    }

    /// The entity slot of `prop`, if it has been promoted.
    pub fn entity_of(&self, prop: usize) -> (r: Option<usize>)
        requires
            prop < self@.states.len(),
        ensures
            r == entity_spec(self@.states[prop as int]),
    {
        match self.states[prop] {
            PropState::Static { .. } => None,
            PropState::Dynamic { entity, .. } => Some(entity),
        }
    }

    /// Number of props promoted to dynamic entities so far.
    pub fn dynamic_count(&self) -> (r: usize)
        ensures
            r == self@.promoted.len(),
    {
        self.dynamic.len()
    }

    /// The promoted props in promotion order (entity slot `k` is the `k`-th).
    pub fn dynamic_props(&self) -> (r: &Vec<usize>)
        ensures
            r@ == self@.promoted,
    {
        &self.dynamic
    }

    /// The prop being carried, if any.
    pub fn held(&self) -> (r: Option<usize>)
        ensures
            r == self@.carried,
    {
        self.held
    }

    /// Turns static prop `prop` into a dynamic entity with the next entity slot, not yet settled,
    /// and returns the pool range `(start, count)` of the colliders its new body takes over.
    /// A prop that is already dynamic is left alone (`None`).
    pub fn promote(&mut self, prop: usize) -> (r: Option<(u32, u32)>)
        requires
            old(self)@.wf(),
            prop < old(self)@.states.len(),
        ensures
            final(self)@.wf(),
            final(self)@.objects == old(self)@.objects,
            final(self)@.carried == old(self)@.carried,
            match old(self)@.states[prop as int] {
                PropState::Static { collider_start, collider_count } => {
                    &&& r == Some((collider_start, collider_count))
                    &&& final(self)@.states == old(self)@.states.update(
                        prop as int,
                        PropState::Dynamic { entity: old(self)@.promoted.len() as usize, settled: false },
                    )
                    &&& final(self)@.promoted == old(self)@.promoted.push(prop)
                },
                PropState::Dynamic { .. } => {
                    &&& r == None::<(u32, u32)>
                    &&& final(self)@ == old(self)@
                },
            },
    {
        match self.states[prop] {
            PropState::Static { collider_start, collider_count } => {
                let entity = self.dynamic.len();
                self.states.set(prop, PropState::Dynamic { entity, settled: false });
                self.dynamic.push(prop);
                proof {
                    let o = old(self)@;
                    let v = self@;
                    assert forall|k: int| 0 <= k < v.promoted.len() implies {
                        &&& #[trigger] v.promoted[k] < v.states.len()
                        &&& v.states[v.promoted[k] as int] is Dynamic && v.states[v.promoted[k] as int]->entity == k
                    } by {
                        if k < o.promoted.len() {
                            assert(o.promoted[k] != prop) by {
                                assert(o.states[o.promoted[k] as int] is Dynamic && o.states[o.promoted[k] as int]->entity == k);
                            };
                        }
                    };
                    assert forall|p: int| 0 <= p < v.states.len() && (#[trigger] v.states[p]) is Dynamic implies {
                        &&& v.states[p]->entity < v.promoted.len()
                        &&& v.promoted[v.states[p]->entity as int] == p
                    } by {
                        if p != prop {
                            assert(o.states[p] is Dynamic);
                        }
                    };
                }
                Some((collider_start, collider_count))
            },
            PropState::Dynamic { .. } => None,
        }
    }

    /// Records whether promoted prop `prop`'s resting pose has been published (a static instance
    /// is left as it is).
    pub fn set_settled(&mut self, prop: usize, settled: bool)
        requires
            old(self)@.wf(),
            prop < old(self)@.states.len(),
        ensures
            final(self)@.wf(),
            final(self)@ == (LedgerView {
                states: old(self)@.states.update(prop as int, with_settled(old(self)@.states[prop as int], settled)),
                ..old(self)@
            }),
    {
        match self.states[prop] {
            PropState::Static { .. } => {},
            PropState::Dynamic { entity, .. } => {
                self.states.set(prop, PropState::Dynamic { entity, settled });
            },
        }
        proof {
            let o = old(self)@;
            let v = self@;
            assert(v.states =~= o.states.update(prop as int, with_settled(o.states[prop as int], settled)));
            assert forall|k: int| 0 <= k < v.promoted.len() implies {
                &&& #[trigger] v.promoted[k] < v.states.len()
                &&& v.states[v.promoted[k] as int] is Dynamic && v.states[v.promoted[k] as int]->entity == k
            } by {
                assert(o.states[o.promoted[k] as int] is Dynamic && o.states[o.promoted[k] as int]->entity == k);
            };
            assert forall|p: int| 0 <= p < v.states.len() && (#[trigger] v.states[p]) is Dynamic implies {
                &&& v.states[p]->entity < v.promoted.len()
                &&& v.promoted[v.states[p]->entity as int] == p
            } by {
                assert(o.states[p] is Dynamic);
            };
        }
    }
}

/// What a simulation tick does with one promoted prop's pose.
#[derive(Debug, Clone, Copy, PartialEq, Eq, Structural)]
pub enum TickAction {
    /// Nothing: it is carried (it follows the hold pose), or asleep with its resting pose
    /// already published.
    Skip,
    /// It has just fallen asleep: publish its resting pose, once.
    PublishRest,
    /// It is awake: keep it inside the map and under the speed limit, then publish its pose.
    Publish,
}

/// A promoted prop's action this tick, from whether it is carried, whether its body sleeps, and
/// whether its resting pose was already published.
pub open spec fn tick_action(carried: bool, sleeping: bool, settled: bool) -> TickAction {
    if carried {
        TickAction::Skip
    } else if sleeping {
        if settled {
            TickAction::Skip
        } else {
            TickAction::PublishRest
        }
    } else {
        TickAction::Publish
    }
}

/// A promoted prop's `settled` flag after the tick.
pub open spec fn settled_after(carried: bool, sleeping: bool, settled: bool) -> bool {
    if carried {
        settled
    } else {
        sleeping
    }
}

/// The prop states after a tick in which the body of the `k`-th promoted prop sleeps iff
/// `sleeping[k]`.
pub open spec fn ticked(v: LedgerView, sleeping: Seq<bool>) -> Seq<PropState> {
    Seq::new(
        v.states.len(),
        |p: int|
            match v.states[p] {
                PropState::Static { .. } => v.states[p],
                PropState::Dynamic { entity, settled } => PropState::Dynamic {
                    entity,
                    settled: settled_after(v.carried == Some(p as usize), sleeping[entity as int], settled),
                },
            },
    )
}

/// The tick's actions, one per promoted prop in promotion order.
pub open spec fn tick_actions(v: LedgerView, sleeping: Seq<bool>) -> Seq<TickAction> {
    Seq::new(
        v.promoted.len(),
        |k: int|
            {
                let p = v.promoted[k];
                tick_action(v.carried == Some(p), sleeping[k], v.states[p as int]->settled)
            },
    )
}

/// The props whose scene objects get the pose of entity slots `slots` written back, in order:
/// each slot's prop, except the carried one (it follows the hold pose instead).
pub open spec fn scene_writes_spec(v: LedgerView, slots: Seq<usize>) -> Seq<usize>
    decreases slots.len(),
{
    if slots.len() == 0 {
        Seq::empty()
    } else {
        let rest = scene_writes_spec(v, slots.drop_last());
        let p = v.promoted[slots.last() as int];
        if v.carried == Some(p) {
            rest
        } else {
            rest.push(p)
        }
    }
}

/// `out` extended, tag by tag, with each static prop a collider tag names that `out` does not hold
/// yet.
pub open spec fn props_in_spec(v: LedgerView, tags: Seq<u128>, out: Seq<usize>) -> Seq<usize>
    decreases tags.len(),
{
    if tags.len() == 0 {
        out
    } else {
        let acc = props_in_spec(v, tags.drop_last(), out);
        match prop_of_spec(tags.last()) {
            Some(p) => if v.is_static(p as int) && !acc.contains(p) {
                acc.push(p)
            } else {
                acc
            },
            None => acc,
        }
    }
}

/// Whether `v` holds `x`.
fn contains_prop(v: &Vec<usize>, x: usize) -> (r: bool)
    ensures
        r == v@.contains(x),
{
    let mut i: usize = 0;
    while i < v.len()
        invariant
            0 <= i <= v@.len(),
            forall|j: int| 0 <= j < i ==> v@[j] != x,
        decreases v@.len() - i,
    {
        if v[i] == x {
            return true;
        }
        i = i + 1;
    }
    false
}

impl PropLedger {
    /// Starts carrying `prop`, which the caller has just activated; refused (`false`, nothing
    /// changes) while something is already carried or if `prop` is still static.
    pub fn pick_up(&mut self, prop: usize) -> (r: bool)
        requires
            old(self)@.wf(),
            prop < old(self)@.states.len(),
        ensures
            final(self)@.wf(),
            r == (old(self)@.carried is None && old(self)@.states[prop as int] is Dynamic),
            final(self)@ == if r {
                LedgerView { carried: Some(prop), ..old(self)@ }
            } else {
                old(self)@
            },
    {
        if self.held.is_some() {
            return false;
        }
        match self.states[prop] {
            PropState::Static { .. } => false,
            PropState::Dynamic { .. } => {
                self.held = Some(prop);
                true
            },
        }
    }

    /// Lets go of the carried prop, if any: it re-enters the simulation (not settled) and its id is
    /// returned.
    pub fn drop_held(&mut self) -> (r: Option<usize>)
        requires
            old(self)@.wf(),
        ensures
            final(self)@.wf(),
            r == old(self)@.carried,
            final(self)@ == match r {
                Some(p) => LedgerView {
                    carried: None,
                    states: old(self)@.states.update(p as int, with_settled(old(self)@.states[p as int], false)),
                    ..old(self)@
                },
                None => old(self)@,
            },
    {
        match self.held {
            Some(p) => {
                self.held = None;
                self.set_settled(p, false);
                Some(p)
            },
            None => None,
        }
    }

    /// One simulation tick's decisions: for every promoted prop, in promotion order, what to do
    /// with its pose given whether its body sleeps (`sleeping[k]` for the `k`-th), and the
    /// `settled` flags updated to match.
    pub fn tick(&mut self, sleeping: &Vec<bool>) -> (r: Vec<TickAction>)
        requires
            old(self)@.wf(),
            sleeping@.len() == old(self)@.promoted.len(),
        ensures
            final(self)@.wf(),
            final(self)@ == (LedgerView { states: ticked(old(self)@, sleeping@), ..old(self)@ }),
            r@ == tick_actions(old(self)@, sleeping@),
    {
        let ghost o = self@;
        let mut actions: Vec<TickAction> = Vec::new();
        let mut k: usize = 0;
        while k < self.dynamic.len()
            invariant
                o.wf(),
                self@.wf(),
                sleeping@.len() == o.promoted.len(),
                self@.objects == o.objects,
                self@.promoted == o.promoted,
                self@.carried == o.carried,
                self@.states.len() == o.states.len(),
                0 <= k <= o.promoted.len(),
                forall|p: int|
                    0 <= p < o.states.len() ==> #[trigger] self@.states[p] == if o.states[p] is Dynamic
                        && o.states[p]->entity < k {
                        ticked(o, sleeping@)[p]
                    } else {
                        o.states[p]
                    },
                actions@ == tick_actions(o, sleeping@).take(k as int),
            decreases o.promoted.len() - k,
        {
            let p = self.dynamic[k];
            proof {
                assert(self@.promoted[k as int] < self@.states.len());
                assert(entity_spec(o.states[p as int]) == Some(k));
            }
            let settled = match self.states[p] {
                PropState::Dynamic { settled, .. } => settled,
                PropState::Static { .. } => false,
            };
            let carried = match self.held {
                Some(h) => h == p,
                None => false,
            };
            let action = if carried {
                TickAction::Skip
            } else if sleeping[k] {
                if !settled {
                    self.set_settled(p, true);
                    TickAction::PublishRest
                } else {
                    TickAction::Skip
                }
            } else {
                if settled {
                    self.set_settled(p, false);
                }
                TickAction::Publish
            };
            actions.push(action);
            proof {
                assert forall|q: int| 0 <= q < o.states.len() implies #[trigger] self@.states[q] == if o.states[q] is Dynamic
                    && o.states[q]->entity < k + 1 {
                    ticked(o, sleeping@)[q]
                } else {
                    o.states[q]
                } by {
                    if q != p {
                        if o.states[q] is Dynamic && o.states[q]->entity == k {
                            assert(o.promoted[k as int] == q);
                        }
                    }
                };
                assert(actions@ =~= tick_actions(o, sleeping@).take(k + 1));
            }
            k = k + 1;
        }
        proof {
            assert(self@.states =~= ticked(o, sleeping@));
            assert(actions@ =~= tick_actions(o, sleeping@));
        }
        actions
    }

    /// The props whose scene objects get the pose of the changed entity slots `changed` written
    /// back, in order (the carried prop is skipped: it follows the hold pose).
    pub fn scene_writes(&self, changed: &Vec<usize>) -> (r: Vec<usize>)
        requires
            self@.wf(),
            forall|j: int| 0 <= j < changed@.len() ==> #[trigger] changed@[j] < self@.promoted.len(),
        ensures
            r@ == scene_writes_spec(self@, changed@),
    {
        let mut out: Vec<usize> = Vec::new();
        let mut j: usize = 0;
        while j < changed.len()
            invariant
                0 <= j <= changed@.len(),
                forall|i: int| 0 <= i < changed@.len() ==> #[trigger] changed@[i] < self@.promoted.len(),
                out@ == scene_writes_spec(self@, changed@.take(j as int)),
            decreases changed@.len() - j,
        {
            let p = self.dynamic[changed[j]];
            let carried = match self.held {
                Some(h) => h == p,
                None => false,
            };
            if !carried {
                out.push(p);
            }
            proof {
                assert(changed@.take(j + 1).drop_last() =~= changed@.take(j as int));
            }
            j = j + 1;
        }
        assert(changed@.take(changed@.len() as int) =~= changed@);
        out
    }

    /// Appends to `out`, without duplicates, the static props that the colliders tagged `tags`
    /// (the answer of a box query) belong to.
    pub fn props_in(&self, tags: &Vec<u128>, out: &mut Vec<usize>)
        requires
            forall|j: int|
                0 <= j < tags@.len() ==> match prop_of_spec(#[trigger] tags@[j]) {
                    Some(p) => p < self@.states.len(),
                    None => true,
                },
        ensures
            final(out)@ == props_in_spec(self@, tags@, old(out)@),
    {
        let ghost out0 = out@;
        let mut j: usize = 0;
        while j < tags.len()
            invariant
                0 <= j <= tags@.len(),
                forall|i: int|
                    0 <= i < tags@.len() ==> match prop_of_spec(#[trigger] tags@[i]) {
                        Some(p) => p < self@.states.len(),
                        None => true,
                    },
                out@ == props_in_spec(self@, tags@.take(j as int), out0),
            decreases tags@.len() - j,
        {
            proof {
                assert(tags@.take(j + 1).drop_last() =~= tags@.take(j as int));
                assert(prop_of_spec(tags@[j as int]) is Some ==> prop_of_spec(tags@[j as int])->0 < self@.states.len());
            }
            match prop_of(tags[j]) {
                Some(p) => {
                    if self.is_static(p) && !contains_prop(out, p) {
                        out.push(p);
                    }
                },
                None => {},
            }
            j = j + 1;
        }
        assert(tags@.take(tags@.len() as int) =~= tags@);
    }
}

impl PropLedger {
    /// Promotes, in order, the props an [`Activation`] chose (distinct static props): the `k`-th
    /// gets entity slot `dynamic_count() + k`. Returns, in the same order, the pool range of the
    /// colliders each one's new body takes over.
    pub fn promote_all(&mut self, props: &Vec<usize>) -> (r: Vec<(u32, u32)>)
        requires
            old(self)@.wf(),
            props@.no_duplicates(),
            forall|k: int| 0 <= k < props@.len() ==> old(self)@.is_static(#[trigger] props@[k] as int),
        ensures
            final(self)@.wf(),
            final(self)@.objects == old(self)@.objects,
            final(self)@.carried == old(self)@.carried,
            final(self)@.promoted == old(self)@.promoted + props@,
            final(self)@.states.len() == old(self)@.states.len(),
            forall|k: int|
                0 <= k < props@.len() ==> #[trigger] final(self)@.states[props@[k] as int] == (PropState::Dynamic {
                    entity: (old(self)@.promoted.len() + k) as usize,
                    settled: false,
                }),
            forall|p: int|
                0 <= p < old(self)@.states.len() && !props@.contains(p as usize) ==> #[trigger] final(self)@.states[p]
                    == old(self)@.states[p],
            r@.len() == props@.len(),
            forall|k: int|
                0 <= k < props@.len() ==> #[trigger] r@[k] == (
                    old(self)@.states[props@[k] as int]->collider_start,
                    old(self)@.states[props@[k] as int]->collider_count,
                ),
    {
        let ghost o = self@;
        let mut ranges: Vec<(u32, u32)> = Vec::new();
        let mut k: usize = 0;
        while k < props.len()
            invariant
                o.wf(),
                self@.wf(),
                props@.no_duplicates(),
                forall|j: int| 0 <= j < props@.len() ==> o.is_static(#[trigger] props@[j] as int),
                0 <= k <= props@.len(),
                self@.objects == o.objects,
                self@.carried == o.carried,
                self@.promoted == o.promoted + props@.take(k as int),
                self@.states.len() == o.states.len(),
                forall|j: int|
                    0 <= j < k ==> #[trigger] self@.states[props@[j] as int] == (PropState::Dynamic {
                        entity: (o.promoted.len() + j) as usize,
                        settled: false,
                    }),
                forall|p: int|
                    0 <= p < o.states.len() && !props@.take(k as int).contains(p as usize) ==> #[trigger] self@.states[p]
                        == o.states[p],
                ranges@.len() == k,
                forall|j: int|
                    0 <= j < k ==> #[trigger] ranges@[j] == (
                        o.states[props@[j] as int]->collider_start,
                        o.states[props@[j] as int]->collider_count,
                    ),
            decreases props@.len() - k,
        {
            let p = props[k];
            proof {
                assert(!props@.take(k as int).contains(p)) by {
                    if props@.take(k as int).contains(p) {
                        let j = choose|j: int| 0 <= j < k && props@.take(k as int)[j] == p;
                        assert(props@[j] == props@[k as int]);
                    }
                };
                assert(self@.states[p as int] == o.states[p as int]);
            }
            let range = self.promote(p);
            match range {
                Some(rg) => {
                    ranges.push(rg);
                },
                None => {},
            }
            proof {
                assert(props@.take(k + 1) =~= props@.take(k as int).push(p));
                assert(self@.promoted =~= o.promoted + props@.take(k + 1));
                assert forall|j: int| 0 <= j < k + 1 implies #[trigger] self@.states[props@[j] as int] == (PropState::Dynamic {
                    entity: (o.promoted.len() + j) as usize,
                    settled: false,
                }) by {
                    if j < k {
                        assert(props@[j] != p);
                    }
                };
                assert forall|q: int|
                    0 <= q < o.states.len() && !props@.take(k + 1).contains(q as usize) implies #[trigger] self@.states[q]
                        == o.states[q] by {
                    assert(props@.take(k + 1)[k as int] == p);
                    assert(q != p);
                    if props@.take(k as int).contains(q as usize) {
                        let j = choose|j: int| 0 <= j < k && props@.take(k as int)[j] == q as usize;
                        assert(props@.take(k + 1)[j] == q as usize);
                    }
                };
            }
            k = k + 1;
        }
        assert(props@.take(props@.len() as int) =~= props@);
        ranges
    }
}

/// The most props one disturbance promotes.
pub const PROMOTION_CAP: usize = 40;

/// One step of the activation search over `queue` (first in, first out, so the search goes
/// breadth-first):
/// entries that are not static, already chosen, or over the cap are dropped; the first other one is
/// chosen. Returns the queue and choice list after the step and the prop chosen, if any.
pub open spec fn next_spec(queue: Seq<usize>, order: Seq<usize>, v: LedgerView) -> (Seq<usize>, Seq<usize>, Option<usize>)
    decreases queue.len(),
{
    if queue.len() == 0 {
        (queue, order, None)
    } else {
        let i = queue[0];
        let rest = queue.drop_first();
        if !v.is_static(i as int) || order.contains(i) || order.len() >= PROMOTION_CAP {
            next_spec(rest, order, v)
        } else {
            (rest, order.push(i), Some(i))
        }
    }
}

/// What an [`Activation`] holds: the props still to look at, the props chosen so far (in the
/// order they will be promoted), every prop ever put on the queue, and the ledger as it was when
/// the search began.
pub struct ActivationView {
    pub queue: Seq<usize>,
    pub order: Seq<usize>,
    pub reported: Set<usize>,
    pub ledger: LedgerView,
}

impl ActivationView {
    /// The search's invariant: the choices are distinct static props, at most
    /// [`PROMOTION_CAP`] of them, and every prop ever queued is chosen, still queued, not static,
    /// or shut out by the cap.
    pub open spec fn wf(self) -> bool {
        &&& self.ledger.wf()
        &&& forall|j: int| 0 <= j < self.queue.len() ==> #[trigger] self.queue[j] < self.ledger.states.len()
        &&& self.order.no_duplicates()
        &&& forall|j: int| 0 <= j < self.order.len() ==> self.ledger.is_static(#[trigger] self.order[j] as int)
        &&& self.order.len() <= PROMOTION_CAP
        &&& forall|q: usize|
            #[trigger] self.reported.contains(q) ==> {
                &&& q < self.ledger.states.len()
                &&& (self.order.contains(q) || self.queue.contains(q) || !self.ledger.is_static(q as int)
                    || self.order.len() >= PROMOTION_CAP)
            }
    }
}

/// The search that decides what one disturbance promotes: starting from a static prop, every static
/// prop touching or resting on a chosen one is chosen too, up to [`PROMOTION_CAP`] props. It only
/// decides; the caller answers its box queries (see [`PropLedger::props_in`]) and then promotes
/// the choices with [`PropLedger::promote_all`], so the world is queried as it was before anything
/// changed.
pub struct Activation {
    queue: Vec<usize>,
    order: Vec<usize>,
    reported: Ghost<Set<usize>>,
    ledger: Ghost<LedgerView>,
}

impl View for Activation {
    type V = ActivationView;

    closed spec fn view(&self) -> ActivationView {
        ActivationView { queue: self.queue@, order: self.order@, reported: self.reported@, ledger: self.ledger@ }
    }
}

impl Activation {
    /// A search from `prop`; one from a prop that is already dynamic chooses nothing.
    pub fn new(ledger: &PropLedger, prop: usize) -> (r: Self)
        requires
            ledger@.wf(),
            prop < ledger@.states.len(),
        ensures
            r@.wf(),
            r@.ledger == ledger@,
            r@.queue == if ledger@.is_static(prop as int) {
                seq![prop]
            } else {
                Seq::<usize>::empty()
            },
            r@.order == Seq::<usize>::empty(),
            r@.reported == Set::<usize>::empty().insert(prop),
    {
        let mut queue: Vec<usize> = Vec::new();
        if ledger.is_static(prop) {
            queue.push(prop);
        }
        let reported: Ghost<Set<usize>> = Ghost(Set::<usize>::empty().insert(prop));
        let view: Ghost<LedgerView> = Ghost(ledger@);
        let r = Activation { queue, order: Vec::new(), reported, ledger: view };
        proof {
            assert forall|q: usize| #[trigger] r@.reported.contains(q) implies {
                &&& q < r@.ledger.states.len()
                &&& (r@.order.contains(q) || r@.queue.contains(q) || !r@.ledger.is_static(q as int)
                    || r@.order.len() >= PROMOTION_CAP)
            } by {
                if ledger@.is_static(prop as int) {
                    assert(r@.queue[0] == prop);
                }
            };
        }
        r
    }

    /// Takes the next prop to promote off the queue, or `None` when the search is over. The caller
    /// then reports the static props touching it with [`add_touching`](Self::add_touching).
    pub fn next(&mut self, ledger: &PropLedger) -> (r: Option<usize>)
        requires
            old(self)@.wf(),
            ledger@ == old(self)@.ledger,
        ensures
            final(self)@.wf(),
            final(self)@.ledger == old(self)@.ledger,
            final(self)@.reported == old(self)@.reported,
            (final(self)@.queue, final(self)@.order, r) == next_spec(old(self)@.queue, old(self)@.order, ledger@),
    {
        while self.queue.len() > 0
            invariant
                self@.wf(),
                ledger@ == self@.ledger,
                self@.ledger == old(self)@.ledger,
                self@.reported == old(self)@.reported,
                next_spec(self@.queue, self@.order, ledger@) == next_spec(old(self)@.queue, old(self)@.order, ledger@),
            decreases self@.queue.len(),
        {
            let ghost before = self@;
            let i = self.queue.remove(0);
            proof {
                assert(before.queue[0] == i);
                assert(self@.queue =~= before.queue.drop_first());
            }
            let skip = !ledger.is_static(i) || contains_prop(&self.order, i) || self.order.len() >= PROMOTION_CAP;
            if !skip {
                self.order.push(i);
            }
            proof {
                let v = self@;
                assert forall|j: int| 0 <= j < v.queue.len() implies #[trigger] v.queue[j] < v.ledger.states.len() by {
                    assert(v.queue[j] == before.queue[j + 1]);
                };
                assert forall|j: int| 0 <= j < v.order.len() implies v.ledger.is_static(#[trigger] v.order[j] as int) by {
                    if j < before.order.len() {
                        assert(v.order[j] == before.order[j]);
                    }
                };
                assert forall|q: usize| #[trigger] v.reported.contains(q) implies {
                    &&& q < v.ledger.states.len()
                    &&& (v.order.contains(q) || v.queue.contains(q) || !v.ledger.is_static(q as int)
                        || v.order.len() >= PROMOTION_CAP)
                } by {
                    if q == i {
                        if !skip {
                            assert(v.order[v.order.len() - 1] == q);
                        }
                    } else {
                        if before.order.contains(q) {
                            let j = choose|j: int| 0 <= j < before.order.len() && before.order[j] == q;
                            assert(v.order[j] == q);
                        } else if before.queue.contains(q) {
                            let j = choose|j: int| 0 <= j < before.queue.len() && before.queue[j] == q;
                            assert(j != 0);
                            assert(v.queue[j - 1] == q);
                        }
                    }
                };
            }
            if !skip {
                return Some(i);
            }
        }
        None
    }

    /// Reports the static props touching the prop [`next`](Self::next) just chose: they join the
    /// queue.
    pub fn add_touching(&mut self, touching: &Vec<usize>)
        requires
            old(self)@.wf(),
            forall|j: int| 0 <= j < touching@.len() ==> #[trigger] touching@[j] < old(self)@.ledger.states.len(),
        ensures
            final(self)@.wf(),
            final(self)@.ledger == old(self)@.ledger,
            final(self)@.order == old(self)@.order,
            final(self)@.queue == old(self)@.queue + touching@,
            final(self)@.reported == old(self)@.reported + touching@.to_set(),
    {
        let ghost before = self@;
        let mut j: usize = 0;
        while j < touching.len()
            invariant
                before.wf(),
                forall|i: int| 0 <= i < touching@.len() ==> #[trigger] touching@[i] < before.ledger.states.len(),
                0 <= j <= touching@.len(),
                self@.ledger == before.ledger,
                self@.order == before.order,
                self@.reported == before.reported,
                self@.queue == before.queue + touching@.take(j as int),
            decreases touching@.len() - j,
        {
            self.queue.push(touching[j]);
            proof {
                assert(touching@.take(j + 1) =~= touching@.take(j as int).push(touching@[j as int]));
                assert(self@.queue =~= before.queue + touching@.take(j + 1));
            }
            j = j + 1;
        }
        proof {
            assert(touching@.take(touching@.len() as int) =~= touching@);
            self.reported = Ghost(self.reported@ + touching@.to_set());
            let v = self@;
            assert forall|i: int| 0 <= i < v.queue.len() implies #[trigger] v.queue[i] < v.ledger.states.len() by {
                if i >= before.queue.len() {
                    assert(v.queue[i] == touching@[i - before.queue.len()]);
                }
            };
            assert forall|q: usize| #[trigger] v.reported.contains(q) implies {
                &&& q < v.ledger.states.len()
                &&& (v.order.contains(q) || v.queue.contains(q) || !v.ledger.is_static(q as int)
                    || v.order.len() >= PROMOTION_CAP)
            } by {
                if touching@.to_set().contains(q) {
                    let i = choose|i: int| 0 <= i < touching@.len() && touching@[i] == q;
                    assert(v.queue[before.queue.len() + i] == q);
                } else {
                    assert(before.reported.contains(q));
                    if before.queue.contains(q) {
                        let i = choose|i: int| 0 <= i < before.queue.len() && before.queue[i] == q;
                        assert(v.queue[i] == q);
                    }
                }
            };
        }
    }

    /// The props chosen so far, in promotion order.
    pub fn order(&self) -> (r: &Vec<usize>)
        ensures
            r@ == self@.order,
    {
        &self.order
    }
}

/// A finished search leaves nothing touching behind: every prop that was ever queued (the start
/// and everything reported touching a chosen prop) is chosen or was already dynamic, unless the
/// cap was reached.
pub proof fn lemma_activation_closed(a: ActivationView)
    requires
        a.wf(),
        a.queue.len() == 0,
    ensures
        forall|q: usize|
            #[trigger] a.reported.contains(q) ==> a.order.contains(q) || a.ledger.states[q as int] is Dynamic
                || a.order.len() == PROMOTION_CAP,
{
}

/// A prop that falls asleep publishes its resting pose once and then goes quiet: on a second tick
/// in which it still sleeps, nothing is done with it.
pub proof fn lemma_rest_published_once(v: LedgerView, sleeping: Seq<bool>)
    requires
        v.wf(),
        sleeping.len() == v.promoted.len(),
    ensures
        forall|k: int|
            0 <= k < v.promoted.len() && sleeping[k] ==> #[trigger] tick_actions(
                LedgerView { states: ticked(v, sleeping), ..v },
                sleeping,
            )[k] == TickAction::Skip,
{
    let after = LedgerView { states: ticked(v, sleeping), ..v };
    assert forall|k: int| 0 <= k < v.promoted.len() && sleeping[k] implies #[trigger] tick_actions(after, sleeping)[k]
        == TickAction::Skip by {
        let p = v.promoted[k];
        assert(p < v.states.len());
        let st = v.states[p as int];
        assert(st->entity == k);
        let t = ticked(v, sleeping)[p as int];
        assert(t->settled == settled_after(v.carried == Some(p), sleeping[k], st->settled));
        assert(tick_actions(after, sleeping)[k] == tick_action(v.carried == Some(p), sleeping[k], t->settled));
    };
}

/// Writing poses back to the scene never touches a static prop nor the carried one: every prop
/// [`PropLedger::scene_writes`] names is promoted and not carried.
pub proof fn lemma_scene_writes_only_moving(v: LedgerView, slots: Seq<usize>)
    requires
        v.wf(),
        forall|j: int| 0 <= j < slots.len() ==> #[trigger] slots[j] < v.promoted.len(),
    ensures
        forall|j: int|
            0 <= j < scene_writes_spec(v, slots).len() ==> {
                let p = #[trigger] scene_writes_spec(v, slots)[j];
                &&& p < v.states.len()
                &&& v.states[p as int] is Dynamic
                &&& v.carried != Some(p)
            },
    decreases slots.len(),
{
    if slots.len() > 0 {
        let rest = slots.drop_last();
        assert forall|j: int| 0 <= j < rest.len() implies #[trigger] rest[j] < v.promoted.len() by {
            assert(rest[j] == slots[j]);
        };
        lemma_scene_writes_only_moving(v, rest);
        let k = slots.last() as int;
        assert(slots[slots.len() - 1] < v.promoted.len());
        assert(v.promoted[k] < v.states.len());
        assert(v.states[v.promoted[k] as int] is Dynamic && v.states[v.promoted[k] as int]->entity == k);
    }
}

/// A box query's props are distinct static props: [`PropLedger::props_in`] keeps `out` free of
/// duplicates and only ever adds static props.
pub proof fn lemma_props_in_distinct_static(v: LedgerView, tags: Seq<u128>, out: Seq<usize>)
    requires
        out.no_duplicates(),
    ensures
        props_in_spec(v, tags, out).no_duplicates(),
        props_in_spec(v, tags, out).len() >= out.len(),
        props_in_spec(v, tags, out).take(out.len() as int) == out,
        forall|j: int|
            out.len() <= j < props_in_spec(v, tags, out).len() ==> v.is_static(
                #[trigger] props_in_spec(v, tags, out)[j] as int,
            ),
    decreases tags.len(),
{
    if tags.len() > 0 {
        lemma_props_in_distinct_static(v, tags.drop_last(), out);
        let acc = props_in_spec(v, tags.drop_last(), out);
        let r = props_in_spec(v, tags, out);
        match prop_of_spec(tags.last()) {
            Some(p) => {
                if v.is_static(p as int) && !acc.contains(p) {
                    assert(r == acc.push(p));
                    assert forall|a: int, b: int| 0 <= a < b < r.len() implies r[a] != r[b] by {
                        if b == r.len() - 1 {
                            assert(acc[a] == r[a]);
                        }
                    };
                    assert(r.take(out.len() as int) =~= acc.take(out.len() as int));
                } else {
                }
            },
            None => {},
        }
    }
}

/// A step of the search either chooses one more prop, appending it to the choices, or ends
/// with the queue empty and the choices unchanged.
pub proof fn lemma_next_step(queue: Seq<usize>, order: Seq<usize>, v: LedgerView)
    ensures
        match next_spec(queue, order, v).2 {
            Some(i) => next_spec(queue, order, v).1 == order.push(i) && order.len() < PROMOTION_CAP,
            None => next_spec(queue, order, v).1 == order && next_spec(queue, order, v).0.len() == 0,
        },
    decreases queue.len(),
{
    if queue.len() > 0 {
        lemma_next_step(queue.drop_first(), order, v);
    }
}

/// The props a whole activation search chooses, in order: starting from `queue` with `order`
/// already chosen, it takes steps of [`next_spec`] until the queue runs dry or the cap is
/// reached, and after choosing its `k`-th prop it queues `answers[k]`, the props reported
/// touching that prop.
pub open spec fn activation_order(v: LedgerView, queue: Seq<usize>, order: Seq<usize>, answers: Seq<Seq<usize>>) -> Seq<usize>
    decreases PROMOTION_CAP - order.len(),
{
    if order.len() >= PROMOTION_CAP {
        order
    } else {
        let step = next_spec(queue, order, v);
        match step.2 {
            None => step.1,
            Some(i) => {
                proof {
                    lemma_next_step(queue, order, v);
                }
                activation_order(v, step.0 + answers[order.len() as int], step.1, answers)
            },
        }
    }
}

/// The queue a search from `prop` starts with: the prop itself if it is still static.
pub open spec fn activation_start(v: LedgerView, prop: usize) -> Seq<usize> {
    if v.is_static(prop as int) {
        seq![prop]
    } else {
        Seq::empty()
    }
}

/// The props reported touching, as sequences.
pub open spec fn answer_views(answers: Seq<Vec<usize>>) -> Seq<Seq<usize>> {
    answers.map_values(|t: Vec<usize>| t@)
}

/// Whether `full` begins with `part`.
pub open spec fn extends_answers(full: Seq<Seq<usize>>, part: Seq<Seq<usize>>) -> bool {
    full.len() >= part.len() && forall|k: int| 0 <= k < part.len() ==> full[k] == part[k]
}

impl PropLedger {
    /// Promotes `prop` if it is still static and, breadth-first, every static prop touching or
    /// resting on a promoted one, at most [`PROMOTION_CAP`] props in all. `touching(i)` answers the
    /// box query around static prop `i`: the static props its colliders' bounds meet (see
    /// [`props_in`](Self::props_in)). The world is queried as it was before anything changed; then
    /// the choices are promoted in order. Returns the promoted props (exactly the breadth-first
    /// order [`activation_order`] gives from `prop` with the reported answers), for each the pool
    /// range of the colliders its new body takes over, and for each the touching props its query
    /// reported.
    pub fn activate<F: Fn(usize) -> Vec<usize>>(&mut self, prop: usize, touching: F) -> (r: (
        Vec<usize>,
        Vec<(u32, u32)>,
        Vec<Vec<usize>>,
    ))
        requires
            old(self)@.wf(),
            prop < old(self)@.states.len(),
            forall|i: usize| i < old(self)@.states.len() ==> call_requires(touching, (i,)),
            forall|i: usize, t: Vec<usize>|
                #[trigger] call_ensures(touching, (i,), t) ==> forall|j: int|
                    0 <= j < t@.len() ==> t@[j] < old(self)@.states.len(),
        ensures
            final(self)@.wf(),
            final(self)@.objects == old(self)@.objects,
            final(self)@.carried == old(self)@.carried,
            final(self)@.promoted == old(self)@.promoted + r.0@,
            final(self)@.states.len() == old(self)@.states.len(),
            r.0@.no_duplicates(),
            r.0@.len() <= PROMOTION_CAP,
            forall|k: int| 0 <= k < r.0@.len() ==> old(self)@.is_static(#[trigger] r.0@[k] as int),
            old(self)@.is_static(prop as int) ==> r.0@.len() >= 1 && r.0@[0] == prop,
            !old(self)@.is_static(prop as int) ==> r.0@.len() == 0,
            forall|k: int|
                0 <= k < r.0@.len() ==> #[trigger] final(self)@.states[r.0@[k] as int] == (PropState::Dynamic {
                    entity: (old(self)@.promoted.len() + k) as usize,
                    settled: false,
                }),
            forall|p: int|
                0 <= p < old(self)@.states.len() && !r.0@.contains(p as usize) ==> #[trigger] final(self)@.states[p]
                    == old(self)@.states[p],
            r.1@.len() == r.0@.len(),
            forall|k: int|
                0 <= k < r.0@.len() ==> #[trigger] r.1@[k] == (
                    old(self)@.states[r.0@[k] as int]->collider_start,
                    old(self)@.states[r.0@[k] as int]->collider_count,
                ),
            r.2@.len() == r.0@.len(),
            forall|k: int| 0 <= k < r.0@.len() ==> call_ensures(touching, (r.0@[k],), #[trigger] r.2@[k]),
            forall|k: int, j: int|
                0 <= k < r.2@.len() && 0 <= j < r.2@[k]@.len() ==> r.0@.contains(#[trigger] r.2@[k]@[j])
                    || !old(self)@.is_static(r.2@[k]@[j] as int) || r.0@.len() == PROMOTION_CAP,
            r.0@ == activation_order(old(self)@, activation_start(old(self)@, prop), Seq::empty(), answer_views(r.2@)),
    {
        let ghost o = self@;
        let ghost init = activation_start(o, prop);
        let mut search = Activation::new(self, prop);
        let mut answers: Vec<Vec<usize>> = Vec::new();
        proof {
            lemma_next_step(search@.queue, search@.order, o);
            assert(search@.queue == init);
        }
        let first = search.next(self);
        match first {
            Some(i) => {
                let t = touching(i);
                search.add_touching(&t);
                answers.push(t);
            },
            None => {},
        }
        proof {
            assert forall|full: Seq<Seq<usize>>| #[trigger] extends_answers(full, answer_views(answers@)) implies activation_order(
                o,
                init,
                Seq::empty(),
                full,
            ) == activation_order(o, search@.queue, search@.order, full) by {
                if o.is_static(prop as int) {
                    assert(answer_views(answers@)[0] == full[0]);
                    assert(search@.queue =~= Seq::<usize>::empty() + full[0]);
                    assert(next_spec(init, Seq::empty(), o).0 =~= Seq::<usize>::empty());
                } else {
                    assert(search@.queue =~= init);
                }
            };
            if o.is_static(prop as int) {
                assert(search@.order == seq![prop]);
            } else {
                assert(search@.order.len() == 0);
            }
            assert forall|k: int, j: int|
                0 <= k < answers@.len() && 0 <= j < answers@[k]@.len() implies search@.reported.contains(
                    #[trigger] answers@[k]@[j],
                ) by {
                assert(answers@[k]@.to_set().contains(answers@[k]@[j]));
            };
        }
        loop
            invariant
                self@ == o,
                o.wf(),
                search@.wf(),
                search@.ledger == o,
                o.is_static(prop as int) ==> search@.order.len() >= 1 && search@.order[0] == prop,
                !o.is_static(prop as int) ==> search@.order.len() == 0 && search@.queue.len() == 0,
                forall|i: usize| i < o.states.len() ==> call_requires(touching, (i,)),
                forall|i: usize, t: Vec<usize>|
                    #[trigger] call_ensures(touching, (i,), t) ==> forall|j: int|
                        0 <= j < t@.len() ==> t@[j] < o.states.len(),
                answers@.len() == search@.order.len(),
                forall|k: int| 0 <= k < answers@.len() ==> call_ensures(touching, (search@.order[k],), #[trigger] answers@[k]),
                forall|k: int, j: int|
                    0 <= k < answers@.len() && 0 <= j < answers@[k]@.len() ==> search@.reported.contains(
                        #[trigger] answers@[k]@[j],
                    ),
                init == activation_start(o, prop),
                forall|full: Seq<Seq<usize>>| #[trigger] extends_answers(full, answer_views(answers@)) ==> activation_order(
                    o,
                    init,
                    Seq::empty(),
                    full,
                ) == activation_order(o, search@.queue, search@.order, full),
            ensures
                self@ == o,
                search@.wf(),
                search@.ledger == o,
                search@.queue.len() == 0,
                o.is_static(prop as int) ==> search@.order.len() >= 1 && search@.order[0] == prop,
                !o.is_static(prop as int) ==> search@.order.len() == 0,
                answers@.len() == search@.order.len(),
                forall|k: int| 0 <= k < answers@.len() ==> call_ensures(touching, (search@.order[k],), #[trigger] answers@[k]),
                forall|k: int, j: int|
                    0 <= k < answers@.len() && 0 <= j < answers@[k]@.len() ==> search@.reported.contains(
                        #[trigger] answers@[k]@[j],
                    ),
                forall|full: Seq<Seq<usize>>| #[trigger] extends_answers(full, answer_views(answers@)) ==> activation_order(
                    o,
                    init,
                    Seq::empty(),
                    full,
                ) == activation_order(o, search@.queue, search@.order, full),
            decreases PROMOTION_CAP - search@.order.len(),
        {
            let ghost before = search@;
            proof {
                lemma_next_step(before.queue, before.order, o);
            }
            let n = search.next(self);
            match n {
                None => {
                    break;
                },
                Some(i) => {
                    proof {
                        assert(search@.order == before.order.push(i));
                        assert(search@.order[search@.order.len() - 1] == i);
                        assert(o.is_static(i as int));
                    }
                    let ghost mid = search@;
                    let t = touching(i);
                    search.add_touching(&t);
                    let ghost a0 = answers@;
                    answers.push(t);
                    proof {
                        assert forall|full: Seq<Seq<usize>>| #[trigger] extends_answers(full, answer_views(answers@)) implies activation_order(
                            o,
                            init,
                            Seq::empty(),
                            full,
                        ) == activation_order(o, search@.queue, search@.order, full) by {
                            assert(extends_answers(full, answer_views(a0))) by {
                                assert forall|k: int| 0 <= k < answer_views(a0).len() implies full[k] == answer_views(a0)[k] by {
                                    assert(answer_views(answers@)[k] == answer_views(a0)[k]);
                                };
                            };
                            let k = before.order.len() as int;
                            assert(answer_views(answers@)[k] == t@);
                            assert(full[k] == t@);
                            assert(search@.queue == mid.queue + full[k]);
                        };
                        assert forall|k: int| 0 <= k < answers@.len() implies call_ensures(touching, (search@.order[k],), #[trigger] answers@[k]) by {
                            if k < a0.len() {
                                assert(answers@[k] == a0[k]);
                                assert(search@.order[k] == before.order[k]);
                            }
                        };
                        assert forall|k: int, j: int|
                            0 <= k < answers@.len() && 0 <= j < answers@[k]@.len() implies search@.reported.contains(
                                #[trigger] answers@[k]@[j],
                            ) by {
                            if k == answers@.len() - 1 {
                                assert(t@.to_set().contains(t@[j]));
                            } else {
                                assert(answers@[k] == a0[k]);
                            }
                        };
                    }
                },
            }
        }
        proof {
            lemma_activation_closed(search@);
            let fa = answer_views(answers@);
            assert(extends_answers(fa, fa));
            lemma_next_step(search@.queue, search@.order, o);
            assert(activation_order(o, search@.queue, search@.order, fa) == search@.order);
        }
        let order = search.order().clone();
        proof {
            assert(order@ =~= search@.order);
        }
        let ranges = self.promote_all(&order);
        (order, ranges, answers)
    }
}

/// The fixtures are exactly the building's and the landscape's own pieces: kitchen counters,
/// refrigerators, stoves, sinks, toilets, bathtubs, washer-dryers, mailboxes, fence sections, rugs,
/// oak and pine trees, bushes, flower patches, hedges, boulders, grills, picnic tables, benches,
/// vending machines, filing cabinets, bookshelves, wardrobes, beds and sofas. Crates, barrels,
/// traffic cones, box stacks, chairs, trash cans, fire extinguishers, potted plants, dining tables,
/// TVs, coffee tables, nightstands, desks and armchairs are not.
pub proof fn lemma_fixture_kinds(k: PropKind)
    ensures
        is_fixture_name(prop_name(k)) <==> (
            k == PropKind::KitchenCounter ||
            k == PropKind::Refrigerator ||
            k == PropKind::Stove ||
            k == PropKind::Sink ||
            k == PropKind::Toilet ||
            k == PropKind::Bathtub ||
            k == PropKind::WasherDryer ||
            k == PropKind::Mailbox ||
            k == PropKind::FenceSection ||
            k == PropKind::Rug ||
            k == PropKind::TreeOak ||
            k == PropKind::TreePine ||
            k == PropKind::Bush ||
            k == PropKind::FlowerPatch ||
            k == PropKind::Hedge ||
            k == PropKind::Boulder ||
            k == PropKind::Grill ||
            k == PropKind::PicnicTable ||
            k == PropKind::Bench ||
            k == PropKind::VendingMachine ||
            k == PropKind::FilingCabinet ||
            k == PropKind::Bookshelf ||
            k == PropKind::Wardrobe ||
            k == PropKind::Bed ||
            k == PropKind::Sofa
        ),
{
    lemma_prop_kind_names();
    let t = FIXTURE_PROPS@;
    assert(t[0]@ == "kitchen_counter"@);
    assert(t[1]@ == "refrigerator"@);
    assert(t[2]@ == "stove"@);
    assert(t[3]@ == "sink"@);
    assert(t[4]@ == "toilet"@);
    assert(t[5]@ == "bathtub"@);
    assert(t[6]@ == "washer_dryer"@);
    assert(t[7]@ == "mailbox"@);
    assert(t[8]@ == "fence_section"@);
    assert(t[9]@ == "rug"@);
    assert(t[10]@ == "tree_oak"@);
    assert(t[11]@ == "tree_pine"@);
    assert(t[12]@ == "bush"@);
    assert(t[13]@ == "flower_patch"@);
    assert(t[14]@ == "hedge"@);
    assert(t[15]@ == "boulder"@);
    assert(t[16]@ == "grill"@);
    assert(t[17]@ == "picnic_table"@);
    assert(t[18]@ == "bench"@);
    assert(t[19]@ == "vending_machine"@);
    assert(t[20]@ == "filing_cabinet"@);
    assert(t[21]@ == "bookshelf"@);
    assert(t[22]@ == "wardrobe"@);
    assert(t[23]@ == "bed"@);
    assert(t[24]@ == "sofa"@);
    match k {
        PropKind::KitchenCounter => assert(t[0]@ == prop_name(k)),
        PropKind::Refrigerator => assert(t[1]@ == prop_name(k)),
        PropKind::Stove => assert(t[2]@ == prop_name(k)),
        PropKind::Sink => assert(t[3]@ == prop_name(k)),
        PropKind::Toilet => assert(t[4]@ == prop_name(k)),
        PropKind::Bathtub => assert(t[5]@ == prop_name(k)),
        PropKind::WasherDryer => assert(t[6]@ == prop_name(k)),
        PropKind::Mailbox => assert(t[7]@ == prop_name(k)),
        PropKind::FenceSection => assert(t[8]@ == prop_name(k)),
        PropKind::Rug => assert(t[9]@ == prop_name(k)),
        PropKind::TreeOak => assert(t[10]@ == prop_name(k)),
        PropKind::TreePine => assert(t[11]@ == prop_name(k)),
        PropKind::Bush => assert(t[12]@ == prop_name(k)),
        PropKind::FlowerPatch => assert(t[13]@ == prop_name(k)),
        PropKind::Hedge => assert(t[14]@ == prop_name(k)),
        PropKind::Boulder => assert(t[15]@ == prop_name(k)),
        PropKind::Grill => assert(t[16]@ == prop_name(k)),
        PropKind::PicnicTable => assert(t[17]@ == prop_name(k)),
        PropKind::Bench => assert(t[18]@ == prop_name(k)),
        PropKind::VendingMachine => assert(t[19]@ == prop_name(k)),
        PropKind::FilingCabinet => assert(t[20]@ == prop_name(k)),
        PropKind::Bookshelf => assert(t[21]@ == prop_name(k)),
        PropKind::Wardrobe => assert(t[22]@ == prop_name(k)),
        PropKind::Bed => assert(t[23]@ == prop_name(k)),
        PropKind::Sofa => assert(t[24]@ == prop_name(k)),
        _ => {
            reveal_strlit("kitchen_counter");
            reveal_strlit("refrigerator");
            reveal_strlit("stove");
            reveal_strlit("sink");
            reveal_strlit("toilet");
            reveal_strlit("bathtub");
            reveal_strlit("washer_dryer");
            reveal_strlit("mailbox");
            reveal_strlit("fence_section");
            reveal_strlit("rug");
            reveal_strlit("tree_oak");
            reveal_strlit("tree_pine");
            reveal_strlit("bush");
            reveal_strlit("flower_patch");
            reveal_strlit("hedge");
            reveal_strlit("boulder");
            reveal_strlit("grill");
            reveal_strlit("picnic_table");
            reveal_strlit("bench");
            reveal_strlit("vending_machine");
            reveal_strlit("filing_cabinet");
            reveal_strlit("bookshelf");
            reveal_strlit("wardrobe");
            reveal_strlit("bed");
            reveal_strlit("sofa");
            assert forall|i: int| 0 <= i < 25 implies #[trigger] t[i]@ != prop_name(k) by {
                match k {
                    PropKind::Crate => reveal_strlit("crate"),
                    PropKind::Barrel => reveal_strlit("barrel"),
                    PropKind::TrafficCone => reveal_strlit("traffic_cone"),
                    PropKind::BoxStack => reveal_strlit("box_stack"),
                    PropKind::Chair => reveal_strlit("chair"),
                    PropKind::TrashCan => reveal_strlit("trash_can"),
                    PropKind::FireExtinguisher => reveal_strlit("fire_extinguisher"),
                    PropKind::PottedPlant => reveal_strlit("potted_plant"),
                    PropKind::DiningTable => reveal_strlit("dining_table"),
                    PropKind::Tv => reveal_strlit("tv"),
                    PropKind::CoffeeTable => reveal_strlit("coffee_table"),
                    PropKind::Nightstand => reveal_strlit("nightstand"),
                    PropKind::Desk => reveal_strlit("desk"),
                    PropKind::Armchair => reveal_strlit("armchair"),
                    _ => {},
                }
                assert(i == 0 || i == 1 || i == 2 || i == 3 || i == 4 || i == 5 || i == 6 || i == 7 || i == 8 || i == 9 || i == 10 || i == 11 || i == 12 || i == 13 || i == 14 || i == 15 || i == 16 || i == 17 || i == 18 || i == 19 || i == 20 || i == 21 || i == 22 || i == 23 || i == 24);
                let (a, b) = (t[i]@, prop_name(k));
                assert(a.len() != b.len() || a[0] != b[0] || a[1] != b[1] || a[2] != b[2]);
            };
        },
    }
}

} // verus!
