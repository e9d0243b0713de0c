//! The prop-hunt prop library's catalogue: every built-in prop kind and the name a scene uses
//! for it. (The shapes a prop is drawn from are floating-point geometry and live with the
//! renderer.)
use vstd::prelude::*;
use crate::text::str_eq;

verus! {

/// Every built-in prop (39). Origin = middle of the base, front = local +Z.
#[derive(Debug, Clone, Copy, PartialEq, Eq, Structural)]
pub enum PropKind {
    Crate,
    Barrel,
    TrafficCone,
    BoxStack,
    Chair,
    TrashCan,
    VendingMachine,
    Bench,
    FireExtinguisher,
    FilingCabinet,
    PottedPlant,
    Bookshelf,
    Sofa,
    Bed,
    DiningTable,
    Tv,
    KitchenCounter,
    Refrigerator,
    Stove,
    Sink,
    Toilet,
    Bathtub,
    WasherDryer,
    Mailbox,
    FenceSection,
    CoffeeTable,
    Nightstand,
    Wardrobe,
    Desk,
    Rug,
    Armchair,
    TreeOak,
    TreePine,
    Bush,
    FlowerPatch,
    Hedge,
    Boulder,
    Grill,
    PicnicTable,
}

/// The `"prop"` string a scene JSON uses to name `k`.
pub open spec fn prop_name(k: PropKind) -> Seq<char> {
    match k {
        PropKind::Crate => "crate"@,
        PropKind::Barrel => "barrel"@,
        PropKind::TrafficCone => "traffic_cone"@,
        PropKind::BoxStack => "box_stack"@,
        PropKind::Chair => "chair"@,
        PropKind::TrashCan => "trash_can"@,
        PropKind::VendingMachine => "vending_machine"@,
        PropKind::Bench => "bench"@,
        PropKind::FireExtinguisher => "fire_extinguisher"@,
        PropKind::FilingCabinet => "filing_cabinet"@,
        PropKind::PottedPlant => "potted_plant"@,
        PropKind::Bookshelf => "bookshelf"@,
        PropKind::Sofa => "sofa"@,
        PropKind::Bed => "bed"@,
        PropKind::DiningTable => "dining_table"@,
        PropKind::Tv => "tv"@,
        PropKind::KitchenCounter => "kitchen_counter"@,
        PropKind::Refrigerator => "refrigerator"@,
        PropKind::Stove => "stove"@,
        PropKind::Sink => "sink"@,
        PropKind::Toilet => "toilet"@,
        PropKind::Bathtub => "bathtub"@,
        PropKind::WasherDryer => "washer_dryer"@,
        PropKind::Mailbox => "mailbox"@,
        PropKind::FenceSection => "fence_section"@,
        PropKind::CoffeeTable => "coffee_table"@,
        PropKind::Nightstand => "nightstand"@,
        PropKind::Wardrobe => "wardrobe"@,
        PropKind::Desk => "desk"@,
        PropKind::Rug => "rug"@,
        PropKind::Armchair => "armchair"@,
        PropKind::TreeOak => "tree_oak"@,
        PropKind::TreePine => "tree_pine"@,
        PropKind::Bush => "bush"@,
        PropKind::FlowerPatch => "flower_patch"@,
        PropKind::Hedge => "hedge"@,
        PropKind::Boulder => "boulder"@,
        PropKind::Grill => "grill"@,
        PropKind::PicnicTable => "picnic_table"@,
    }
}

/// Where `k` stands in [`PropKind::ALL`].
pub open spec fn catalogue_index(k: PropKind) -> int {
    match k {
        PropKind::Crate => 0,
        PropKind::Barrel => 1,
        PropKind::TrafficCone => 2,
        PropKind::BoxStack => 3,
        PropKind::Chair => 4,
        PropKind::TrashCan => 5,
        PropKind::VendingMachine => 6,
        PropKind::Bench => 7,
        PropKind::FireExtinguisher => 8,
        PropKind::FilingCabinet => 9,
        PropKind::PottedPlant => 10,
        PropKind::Bookshelf => 11,
        PropKind::Sofa => 12,
        PropKind::Bed => 13,
        PropKind::DiningTable => 14,
        PropKind::Tv => 15,
        PropKind::KitchenCounter => 16,
        PropKind::Refrigerator => 17,
        PropKind::Stove => 18,
        PropKind::Sink => 19,
        PropKind::Toilet => 20,
        PropKind::Bathtub => 21,
        PropKind::WasherDryer => 22,
        PropKind::Mailbox => 23,
        PropKind::FenceSection => 24,
        PropKind::CoffeeTable => 25,
        PropKind::Nightstand => 26,
        PropKind::Wardrobe => 27,
        PropKind::Desk => 28,
        PropKind::Rug => 29,
        PropKind::Armchair => 30,
        PropKind::TreeOak => 31,
        PropKind::TreePine => 32,
        PropKind::Bush => 33,
        PropKind::FlowerPatch => 34,
        PropKind::Hedge => 35,
        PropKind::Boulder => 36,
        PropKind::Grill => 37,
        PropKind::PicnicTable => 38,
    }
}

/// The kind a scene names with `name`, if any (names are unique, see [`lemma_prop_names_unique`]).
pub open spec fn kind_named(name: Seq<char>) -> Option<PropKind> {
    if exists|k: PropKind| prop_name(k) == name {
        Some(choose|k: PropKind| prop_name(k) == name)
    } else {
        None
    }
}

impl PropKind {
    /// Every `PropKind`, in catalogue order.
    pub const ALL: [PropKind; 39] = [
        PropKind::Crate,
        PropKind::Barrel,
        PropKind::TrafficCone,
        PropKind::BoxStack,
        PropKind::Chair,
        PropKind::TrashCan,
        PropKind::VendingMachine,
        PropKind::Bench,
        PropKind::FireExtinguisher,
        PropKind::FilingCabinet,
        PropKind::PottedPlant,
        PropKind::Bookshelf,
        PropKind::Sofa,
        PropKind::Bed,
        PropKind::DiningTable,
        PropKind::Tv,
        PropKind::KitchenCounter,
        PropKind::Refrigerator,
        PropKind::Stove,
        PropKind::Sink,
        PropKind::Toilet,
        PropKind::Bathtub,
        PropKind::WasherDryer,
        PropKind::Mailbox,
        PropKind::FenceSection,
        PropKind::CoffeeTable,
        PropKind::Nightstand,
        PropKind::Wardrobe,
        PropKind::Desk,
        PropKind::Rug,
        PropKind::Armchair,
        PropKind::TreeOak,
        PropKind::TreePine,
        PropKind::Bush,
        PropKind::FlowerPatch,
        PropKind::Hedge,
        PropKind::Boulder,
        PropKind::Grill,
        PropKind::PicnicTable,
    ];

    /// The `"prop"` string a scene JSON uses to name this kind.
    pub fn name(self) -> (r: &'static str)
        ensures
            r@ == prop_name(self),
    {
        match self {
            PropKind::Crate => "crate",
            PropKind::Barrel => "barrel",
            PropKind::TrafficCone => "traffic_cone",
            PropKind::BoxStack => "box_stack",
            PropKind::Chair => "chair",
            PropKind::TrashCan => "trash_can",
            PropKind::VendingMachine => "vending_machine",
            PropKind::Bench => "bench",
            PropKind::FireExtinguisher => "fire_extinguisher",
            PropKind::FilingCabinet => "filing_cabinet",
            PropKind::PottedPlant => "potted_plant",
            PropKind::Bookshelf => "bookshelf",
            PropKind::Sofa => "sofa",
            PropKind::Bed => "bed",
            PropKind::DiningTable => "dining_table",
            PropKind::Tv => "tv",
            PropKind::KitchenCounter => "kitchen_counter",
            PropKind::Refrigerator => "refrigerator",
            PropKind::Stove => "stove",
            PropKind::Sink => "sink",
            PropKind::Toilet => "toilet",
            PropKind::Bathtub => "bathtub",
            PropKind::WasherDryer => "washer_dryer",
            PropKind::Mailbox => "mailbox",
            PropKind::FenceSection => "fence_section",
            PropKind::CoffeeTable => "coffee_table",
            PropKind::Nightstand => "nightstand",
            PropKind::Wardrobe => "wardrobe",
            PropKind::Desk => "desk",
            PropKind::Rug => "rug",
            PropKind::Armchair => "armchair",
            PropKind::TreeOak => "tree_oak",
            PropKind::TreePine => "tree_pine",
            PropKind::Bush => "bush",
            PropKind::FlowerPatch => "flower_patch",
            PropKind::Hedge => "hedge",
            PropKind::Boulder => "boulder",
            PropKind::Grill => "grill",
            PropKind::PicnicTable => "picnic_table",
        }
    }

    /// Parses a prop name from a scene (`"sofa"`, `"vending_machine"`, ...); `None` if unknown.
    pub fn from_name(name: &str) -> (r: Option<PropKind>)
        ensures
            r == kind_named(name@),
    {
        let mut i: usize = 0;
        while i < 39
            invariant
                0 <= i <= 39,
                forall|j: int| 0 <= j < i ==> prop_name(#[trigger] Self::ALL@[j]) != name@,
            decreases 39 - i,
        {
            let k = Self::ALL[i];
            if str_eq(k.name(), name) {
                proof {
                    lemma_prop_names_unique(k);
                }
                return Some(k);
            }
            i = i + 1;
        }
        proof {
            assert forall|k: PropKind| prop_name(k) != name@ by {
                lemma_catalogue_index(k);
                assert(Self::ALL@[catalogue_index(k)] == k);
            };
        }
        None
    }
}

/// [`PropKind::ALL`] lists every kind, at its catalogue index.
pub proof fn lemma_catalogue_index(k: PropKind)
    ensures
        0 <= catalogue_index(k) < 39,
        PropKind::ALL@[catalogue_index(k)] == k,
{
}

/// No two kinds share a name: `k` is the only kind called `prop_name(k)`, so the name of a kind
/// parses back to that kind.
pub proof fn lemma_prop_names_unique(k: PropKind)
    ensures
        forall|j: PropKind| prop_name(j) == prop_name(k) ==> j == k,
        kind_named(prop_name(k)) == Some(k),
{
    reveal_strlit("crate");
    reveal_strlit("barrel");
    reveal_strlit("traffic_cone");
    reveal_strlit("box_stack");
    reveal_strlit("chair");
    reveal_strlit("trash_can");
    reveal_strlit("vending_machine");
    reveal_strlit("bench");
    reveal_strlit("fire_extinguisher");
    reveal_strlit("filing_cabinet");
    reveal_strlit("potted_plant");
    reveal_strlit("bookshelf");
    reveal_strlit("sofa");
    reveal_strlit("bed");
    reveal_strlit("dining_table");
    reveal_strlit("tv");
    reveal_strlit("kitchen_counter");
    reveal_strlit("refrigerator");
    reveal_strlit("stove");
    reveal_strlit("sink");
    reveal_strlit("toilet");
    reveal_strlit("bathtub");
    reveal_strlit("washer_dryer");
    reveal_strlit("mailbox");
    reveal_strlit("fence_section");
    reveal_strlit("coffee_table");
    reveal_strlit("nightstand");
    reveal_strlit("wardrobe");
    reveal_strlit("desk");
    reveal_strlit("rug");
    reveal_strlit("armchair");
    reveal_strlit("tree_oak");
    reveal_strlit("tree_pine");
    reveal_strlit("bush");
    reveal_strlit("flower_patch");
    reveal_strlit("hedge");
    reveal_strlit("boulder");
    reveal_strlit("grill");
    reveal_strlit("picnic_table");
    assert forall|j: PropKind| prop_name(j) == prop_name(k) implies j == k by {
        let a = prop_name(j);
        let b = prop_name(k);
        assert(a.len() == b.len() && a[0] == b[0] && a[a.len() - 1] == b[b.len() - 1]);
    };
}

/// A name parses to a kind exactly when it is that kind's name.
pub proof fn lemma_kind_named(name: Seq<char>, k: PropKind)
    ensures
        kind_named(name) == Some(k) <==> prop_name(k) == name,
{
    if prop_name(k) == name {
        lemma_prop_names_unique(k);
    }
}

/// The scene name of every kind, as scenes write it.
pub proof fn lemma_prop_kind_names()
    ensures
        prop_name(PropKind::Crate) == "crate"@,
        prop_name(PropKind::Barrel) == "barrel"@,
        prop_name(PropKind::TrafficCone) == "traffic_cone"@,
        prop_name(PropKind::BoxStack) == "box_stack"@,
        prop_name(PropKind::Chair) == "chair"@,
        prop_name(PropKind::TrashCan) == "trash_can"@,
        prop_name(PropKind::VendingMachine) == "vending_machine"@,
        prop_name(PropKind::Bench) == "bench"@,
        prop_name(PropKind::FireExtinguisher) == "fire_extinguisher"@,
        prop_name(PropKind::FilingCabinet) == "filing_cabinet"@,
        prop_name(PropKind::PottedPlant) == "potted_plant"@,
        prop_name(PropKind::Bookshelf) == "bookshelf"@,
        prop_name(PropKind::Sofa) == "sofa"@,
        prop_name(PropKind::Bed) == "bed"@,
        prop_name(PropKind::DiningTable) == "dining_table"@,
        prop_name(PropKind::Tv) == "tv"@,
        prop_name(PropKind::KitchenCounter) == "kitchen_counter"@,
        prop_name(PropKind::Refrigerator) == "refrigerator"@,
        prop_name(PropKind::Stove) == "stove"@,
        prop_name(PropKind::Sink) == "sink"@,
        prop_name(PropKind::Toilet) == "toilet"@,
        prop_name(PropKind::Bathtub) == "bathtub"@,
        prop_name(PropKind::WasherDryer) == "washer_dryer"@,
        prop_name(PropKind::Mailbox) == "mailbox"@,
        prop_name(PropKind::FenceSection) == "fence_section"@,
        prop_name(PropKind::CoffeeTable) == "coffee_table"@,
        prop_name(PropKind::Nightstand) == "nightstand"@,
        prop_name(PropKind::Wardrobe) == "wardrobe"@,
        prop_name(PropKind::Desk) == "desk"@,
        prop_name(PropKind::Rug) == "rug"@,
        prop_name(PropKind::Armchair) == "armchair"@,
        prop_name(PropKind::TreeOak) == "tree_oak"@,
        prop_name(PropKind::TreePine) == "tree_pine"@,
        prop_name(PropKind::Bush) == "bush"@,
        prop_name(PropKind::FlowerPatch) == "flower_patch"@,
        prop_name(PropKind::Hedge) == "hedge"@,
        prop_name(PropKind::Boulder) == "boulder"@,
        prop_name(PropKind::Grill) == "grill"@,
        prop_name(PropKind::PicnicTable) == "picnic_table"@,
{
}

/// A point in a prop's local frame, in whole millimetres.
#[derive(Debug, Clone, Copy, PartialEq, Eq, Structural)]
pub struct PointMm {
    pub x: i32,
    pub y: i32,
    pub z: i32,
}

/// How a prop blocks the player. Most props block with one collider spanning all their parts;
/// a few behave like the real thing instead: a tree blocks only with its trunk (the canopy is
/// overhead), a bush with a box tighter than its round clump, and flowers and rugs not at all.
/// Box corners are in the prop's local frame.
#[derive(Debug, Clone, Copy, PartialEq, Eq, Structural)]
pub enum Collision {
    /// One collider spanning every part (the default).
    Union,
    /// Nothing blocks the player and nothing can be stood on.
    WalkThrough,
    /// A fixed local-space box, ignoring the parts.
    Box { min: PointMm, max: PointMm },
}

/// The collision of each kind: see [`Collision`].
pub open spec fn collision_spec(kind: PropKind) -> Collision {
    match kind {
        PropKind::FlowerPatch | PropKind::Rug => Collision::WalkThrough,
        PropKind::TreeOak | PropKind::TreePine => Collision::Box { min: PointMm { x: -200i32, y: 0, z: -200i32 }, max: PointMm { x: 200, y: 4000, z: 200 } },
        PropKind::Bush => Collision::Box { min: PointMm { x: -600i32, y: 0, z: -600i32 }, max: PointMm { x: 600, y: 900, z: 600 } },
        _ => Collision::Union,
    }
}

/// How a prop of kind `kind` blocks the player.
pub fn collision(kind: PropKind) -> (r: Collision)
    ensures
        r == collision_spec(kind),
{
    match kind {
        PropKind::FlowerPatch | PropKind::Rug => Collision::WalkThrough,
        PropKind::TreeOak | PropKind::TreePine => Collision::Box { min: PointMm { x: -200i32, y: 0, z: -200i32 }, max: PointMm { x: 200, y: 4000, z: 200 } },
        PropKind::Bush => Collision::Box { min: PointMm { x: -600i32, y: 0, z: -600i32 }, max: PointMm { x: 600, y: 900, z: 600 } },
        _ => Collision::Union,
    }
}

} // verus!
