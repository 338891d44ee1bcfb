//! The surfaces that frame a volume, and what its floor leaves out.

use crate::cell::Cell;
use vstd::prelude::*;

verus! {

/// How much of a closed body stands around a volume.
#[derive(Clone, Copy, Debug, PartialEq, Eq, Structural)]
pub enum Shell {
    /// None: the volume is open.
    Open,
    /// A veil, which is blended.
    Veil,
    /// The whole body. It occludes what is behind it, and is drawn opaque.
    Sealed,
}

/// Which surface of a volume a surface is.
#[derive(Clone, Copy, Debug, PartialEq, Eq, Structural)]
pub enum SurfaceKind {
    /// The closed body around the whole volume.
    Body { opaque: bool },
    /// What stands in the volume stands on it.
    Floor,
    /// The back wall, on the lesser side of the first axis.
    Wall,
    /// Where the volume opens.
    Front,
    /// The far side of its last cell.
    Back,
}

/// A surface of a volume: the middle of it, doubled, so that the middle of a cell
/// is a whole number too; and how many cells it spans along each axis. A flat
/// surface spans none along one of them.
#[derive(Clone, Copy, Debug, PartialEq, Eq)]
pub struct Surface {
    pub kind: SurfaceKind,
    pub center: (i64, i64, i64),
    pub size: (i64, i64, i64),
}

/// The doubled middle of a range of cells.
pub open spec fn middle(min: i32, max: i32) -> i64 {
    (min + max + 1) as i64
}

/// How many cells a range holds.
pub open spec fn extent(min: i32, max: i32) -> i64 {
    (max - min + 1) as i64
}

/// The closed body of a volume.
pub open spec fn body_of(min: Cell, max: Cell, opaque: bool) -> Surface {
    Surface {
        kind: SurfaceKind::Body { opaque },
        center: (middle(min.x, max.x), middle(min.y, max.y), middle(min.z, max.z)),
        size: (extent(min.x, max.x), extent(min.y, max.y), extent(min.z, max.z)),
    }
}

/// The floor of a volume: the lower edge of its last row.
pub open spec fn floor_of(min: Cell, max: Cell) -> Surface {
    Surface {
        kind: SurfaceKind::Floor,
        center: (middle(min.x, max.x), (2 * (max.y + 1)) as i64, middle(min.z, max.z)),
        size: (extent(min.x, max.x), 0, extent(min.z, max.z)),
    }
}

/// The back wall of a volume.
pub open spec fn wall_of(min: Cell, max: Cell) -> Surface {
    Surface {
        kind: SurfaceKind::Wall,
        center: ((2 * min.x) as i64, middle(min.y, max.y), middle(min.z, max.z)),
        size: (0, extent(min.y, max.y), extent(min.z, max.z)),
    }
}

/// The face of a volume at the edge `z`.
pub open spec fn face_of(kind: SurfaceKind, min: Cell, max: Cell, z: int) -> Surface {
    Surface {
        kind,
        center: (middle(min.x, max.x), middle(min.y, max.y), (2 * z) as i64),
        size: (extent(min.x, max.x), extent(min.y, max.y), 0),
    }
}

/// The surfaces of a volume: the closed body where there is one, and the four
/// surfaces as long as anything of the volume survives.
pub open spec fn surfaces_of(min: Cell, max: Cell, shell: Shell, survives: bool) -> Seq<Surface> {
    (match shell {
        Shell::Open => Seq::empty(),
        Shell::Veil => seq![body_of(min, max, false)],
        Shell::Sealed => seq![body_of(min, max, true)],
    }) + (if survives {
        seq![
            floor_of(min, max),
            wall_of(min, max),
            face_of(SurfaceKind::Front, min, max, min.z as int),
            face_of(SurfaceKind::Back, min, max, max.z + 1),
        ]
    } else {
        Seq::empty()
    })
}

fn doubled_middle(min: i32, max: i32) -> (res: i64)
    ensures
        res == middle(min, max),
{
    min as i64 + max as i64 + 1
}

fn cells_in(min: i32, max: i32) -> (res: i64)
    ensures
        res == extent(min, max),
{
    max as i64 - min as i64 + 1
}

/// The surfaces that frame one volume, whose inclusive cell bounds are `min` and
/// `max`. A closed body stands for a volume that is not to be looked into; the
/// four surfaces frame one that is.
pub fn volume_surfaces(min: Cell, max: Cell, shell: Shell, survives: bool) -> (surfaces: Vec<
    Surface,
>)
    ensures
        surfaces@ == surfaces_of(min, max, shell, survives),
{
    let mid_x: i64 = doubled_middle(min.x, max.x);
    let mid_y: i64 = doubled_middle(min.y, max.y);
    let mid_z: i64 = doubled_middle(min.z, max.z);
    let size_x: i64 = cells_in(min.x, max.x);
    let size_y: i64 = cells_in(min.y, max.y);
    let size_z: i64 = cells_in(min.z, max.z);
    let mut surfaces: Vec<Surface> = Vec::new();
    if shell != Shell::Open {
        surfaces.push(
            Surface {
                kind: SurfaceKind::Body { opaque: shell == Shell::Sealed },
                center: (mid_x, mid_y, mid_z),
                size: (size_x, size_y, size_z),
            },
        );
    }
    if survives {
        surfaces.push(
            Surface {
                kind: SurfaceKind::Floor,
                center: (mid_x, 2 * (max.y as i64 + 1), mid_z),
                size: (size_x, 0, size_z),
            },
        );
        surfaces.push(
            Surface {
                kind: SurfaceKind::Wall,
                center: (2 * (min.x as i64), mid_y, mid_z),
                size: (0, size_y, size_z),
            },
        );
        surfaces.push(
            Surface {
                kind: SurfaceKind::Front,
                center: (mid_x, mid_y, 2 * (min.z as i64)),
                size: (size_x, size_y, 0),
            },
        );
        surfaces.push(
            Surface {
                kind: SurfaceKind::Back,
                center: (mid_x, mid_y, 2 * (max.z as i64 + 1)),
                size: (size_x, size_y, 0),
            },
        );
    }
    assert(surfaces@ =~= surfaces_of(min, max, shell, survives));
    surfaces
}

/// The edges of a surface along one axis, doubled.
pub open spec fn edges(center: i64, size: i64) -> (int, int) {
    (center - size, center + size)
}

/// Every surface fits its volume: none reaches past it, and each flat one lies on
/// a face of it.
pub proof fn law_surfaces_fit_the_volume(min: Cell, max: Cell, shell: Shell, survives: bool, i: int)
    requires
        min.x <= max.x,
        min.y <= max.y,
        min.z <= max.z,
        0 <= i < surfaces_of(min, max, shell, survives).len(),
    ensures
        ({
            let s = surfaces_of(min, max, shell, survives)[i];
            let (x0, x1) = edges(s.center.0, s.size.0);
            let (y0, y1) = edges(s.center.1, s.size.1);
            let (z0, z1) = edges(s.center.2, s.size.2);
            &&& 2 * min.x <= x0 <= x1 <= 2 * (max.x + 1)
            &&& 2 * min.y <= y0 <= y1 <= 2 * (max.y + 1)
            &&& 2 * min.z <= z0 <= z1 <= 2 * (max.z + 1)
            &&& s.size.0 == 0 ==> x0 == 2 * min.x
            &&& s.size.1 == 0 ==> y0 == 2 * (max.y + 1)
            &&& s.size.2 == 0 ==> z0 == 2 * min.z || z0 == 2 * (max.z + 1)
        }),
{
}

/// The footprint of one node: whether the node is a Match, and the inclusive
/// bounds of the cells it stands on where it stands anywhere.
pub type Footprint = (bool, Option<(Cell, Cell)>);

/// The footprint is flattened on the floor: it spans several cells. A Match's is
/// not, because it is an envelope and not a field: its arms have volumes of their
/// own, and the space between them is the scope's own floor.
pub open spec fn is_flattened(footprint: Footprint) -> bool {
    !footprint.0 && footprint.1 is Some && {
        let (min, max) = footprint.1->0;
        min.x != max.x || min.z != max.z
    }
}

/// The footprints that are flattened, in their order.
pub open spec fn flattened(footprints: Seq<Footprint>) -> Seq<(Cell, Cell)>
    decreases footprints.len(),
{
    if footprints.len() == 0 {
        Seq::empty()
    } else if is_flattened(footprints.last()) {
        flattened(footprints.drop_last()).push(footprints.last().1->0)
    } else {
        flattened(footprints.drop_last())
    }
}

/// At most `room` of a list.
pub open spec fn at_most(list: Seq<(Cell, Cell)>, room: nat) -> Seq<(Cell, Cell)> {
    if list.len() <= room {
        list
    } else {
        list.take(room as int)
    }
}

proof fn lemma_flattened_grows(footprints: Seq<Footprint>, len: int)
    requires
        0 <= len <= footprints.len(),
    ensures
        flattened(footprints.take(len)).is_prefix_of(flattened(footprints)),
    decreases footprints.len(),
{
    if len == footprints.len() {
        assert(footprints.take(len) =~= footprints);
    } else {
        assert(footprints.drop_last().take(len) =~= footprints.take(len));
        lemma_flattened_grows(footprints.drop_last(), len);
    }
}

/// The footprints that the floor flattens, as many as there is room for. Says
/// whether some had to be left out.
pub fn floor_footprints(footprints: &Vec<Footprint>, room: usize) -> (res: (
    Vec<(Cell, Cell)>,
    bool,
))
    ensures
        res.0@ == at_most(flattened(footprints@), room as nat),
        res.1 == (flattened(footprints@).len() > room),
{
    let mut kept: Vec<(Cell, Cell)> = Vec::new();
    let mut i: usize = 0;
    assert(footprints@.take(0).len() == 0);
    while i < footprints.len()
        invariant
            i <= footprints.len(),
            kept@ == flattened(footprints@.take(i as int)),
            kept.len() <= room,
        decreases footprints.len() - i,
    {
        assert(footprints@.take(i + 1).drop_last() =~= footprints@.take(i as int));
        assert(footprints@.take(i + 1).last() == footprints@[i as int]);
        let (is_match, bounds) = footprints[i];
        if !is_match {
            if let Some((min, max)) = bounds {
                if min.x != max.x || min.z != max.z {
                    if kept.len() >= room {
                        proof {
                            lemma_flattened_grows(footprints@, i + 1);
                            assert(flattened(footprints@.take(i + 1)).take(room as int)
                                =~= kept@);
                            assert(flattened(footprints@).take(room as int) =~= kept@);
                        }
                        return (kept, true);
                    }
                    kept.push((min, max));
                }
            }
        }
        i = i + 1;
    }
    assert(footprints@.take(i as int) =~= footprints@);
    (kept, false)
}

/// What the layers of a picture cost.
#[derive(Clone, Copy, Debug, PartialEq, Eq, Structural)]
pub struct LayerBudget {
    /// Bytes per layer.
    pub per_layer: u128,
    /// How many layers there is room for.
    pub room: u128,
    /// The bytes of the layers in use, where a camera has any.
    pub in_use: Option<u128>,
}

/// One entry of a layer holds a colour and a depth.
pub const ENTRY_BYTES: u128 = 8;

/// What a picture costs per layer, and how many layers a buffer has room for.
pub open spec fn budget_of(width: u32, height: u32, limit: u64, layers: Option<u32>) -> Option<
    LayerBudget,
> {
    if width == 0 || height == 0 {
        None
    } else {
        let per_layer = (8 * (width * height)) as u128;
        Some(
            LayerBudget {
                per_layer,
                room: (limit as int / per_layer as int) as u128,
                in_use: match layers {
                    Some(layers) => Some((layers * per_layer) as u128),
                    None => None,
                },
            },
        )
    }
}

/// What a picture of `width` times `height` pixels costs per layer, and how many
/// layers a buffer of `limit` bytes has room for. There is nothing to say of a
/// picture without pixels.
pub fn layer_budget(width: u32, height: u32, limit: u64, layers: Option<u32>) -> (budget: Option<
    LayerBudget,
>)
    ensures
        budget == budget_of(width, height, limit, layers),
{
    proof {
        assert(width * height <= 0xffff_ffff * 0xffff_ffff) by (nonlinear_arith)
            requires
                width <= 0xffff_ffff,
                height <= 0xffff_ffff,
        ;
        assert(width * height == 0 <==> width == 0 || height == 0) by (nonlinear_arith);
        assert(width * height >= 0) by (nonlinear_arith);
    }
    let pixels: u128 = (width as u128) * (height as u128);
    if pixels == 0 {
        return None;
    }
    let per_layer: u128 = ENTRY_BYTES * pixels;
    let in_use: Option<u128> = match layers {
        Some(layers) => {
            assert(layers * per_layer <= 0xffff_ffff * (8 * (0xffff_ffff * 0xffff_ffff)))
                by (nonlinear_arith)
                requires
                    layers <= 0xffff_ffff,
                    per_layer <= 8 * (0xffff_ffff * 0xffff_ffff),
            ;
            Some((layers as u128) * per_layer)
        },
        None => None,
    };
    Some(LayerBudget { per_layer, room: (limit as u128) / per_layer, in_use })
}

/// There is room for exactly so many layers as fit.
pub proof fn law_room_is_exact(per_layer: nat, limit: nat)
    requires
        per_layer > 0,
    ensures
        (limit / per_layer) * per_layer <= limit,
        (limit / per_layer + 1) * per_layer > limit,
{
    vstd::arithmetic::div_mod::lemma_fundamental_div_mod(limit as int, per_layer as int);
    vstd::arithmetic::div_mod::lemma_mod_bound(limit as int, per_layer as int);
    let room = limit / per_layer;
    assert(room * per_layer == per_layer * room) by (nonlinear_arith);
    assert((room + 1) * per_layer == room * per_layer + per_layer) by (nonlinear_arith);
}

/// Where each surface of a volume lies: the body spans all of it, the floor lies
/// under its last row, the wall stands at its first column, the front where its
/// first cell begins and the back where its last one ends; and each spans the whole
/// of the face it lies on.
pub proof fn law_where_each_surface_lies(
    min: Cell,
    max: Cell,
    shell: Shell,
    survives: bool,
    i: int,
)
    requires
        min.x <= max.x,
        min.y <= max.y,
        min.z <= max.z,
        0 <= i < surfaces_of(min, max, shell, survives).len(),
    ensures
        ({
            let s = surfaces_of(min, max, shell, survives)[i];
            let across = (2 * min.x, 2 * (max.x + 1));
            let down = (2 * min.y, 2 * (max.y + 1));
            let along = (2 * min.z, 2 * (max.z + 1));
            let x = edges(s.center.0, s.size.0);
            let y = edges(s.center.1, s.size.1);
            let z = edges(s.center.2, s.size.2);
            match s.kind {
                SurfaceKind::Body { opaque } => {
                    &&& x == across && y == down && z == along
                    &&& shell != Shell::Open
                    &&& opaque == (shell == Shell::Sealed)
                },
                SurfaceKind::Floor => x == across && z == along && y == (down.1, down.1),
                SurfaceKind::Wall => y == down && z == along && x == (across.0, across.0),
                SurfaceKind::Front => x == across && y == down && z == (along.0, along.0),
                SurfaceKind::Back => x == across && y == down && z == (along.1, along.1),
            }
        }),
{
}

/// A volume has a body exactly if it is closed or veiled, and its four surfaces, one
/// of each kind, exactly as long as anything of it survives.
pub proof fn law_which_surfaces_there_are(min: Cell, max: Cell, shell: Shell, survives: bool)
    ensures
        ({
            let all = surfaces_of(min, max, shell, survives);
            let bodies: int = if shell == Shell::Open {
                0
            } else {
                1
            };
            &&& all.len() == bodies + if survives {
                4int
            } else {
                0
            }
            &&& shell != Shell::Open ==> all[0].kind is Body
            &&& survives ==> {
                &&& all[bodies].kind == SurfaceKind::Floor
                &&& all[bodies + 1].kind == SurfaceKind::Wall
                &&& all[bodies + 2].kind == SurfaceKind::Front
                &&& all[bodies + 3].kind == SurfaceKind::Back
            }
        }),
{
}

/// A footprint is left out of the floor exactly if it is no Match's, stands
/// somewhere and spans more than one cell of the floor. They come in the order of
/// the nodes, and `from` names the nodes they come from.
pub proof fn law_which_footprints_are_flattened(footprints: Seq<Footprint>) -> (from: Seq<int>)
    ensures
        from.len() == flattened(footprints).len(),
        forall|k: int, l: int| 0 <= k < l < from.len() ==> from[k] < from[l],
        forall|k: int|
            0 <= k < from.len() ==> {
                &&& 0 <= #[trigger] from[k] < footprints.len()
                &&& !footprints[from[k]].0
                &&& footprints[from[k]].1 == Some(flattened(footprints)[k])
                &&& flattened(footprints)[k].0.x != flattened(footprints)[k].1.x || flattened(
                    footprints,
                )[k].0.z != flattened(footprints)[k].1.z
            },
        forall|i: int|
            0 <= i < footprints.len() && !(#[trigger] footprints[i]).0 && (footprints[i].1 matches Some(
                (min, max),
            ) && (min.x != max.x || min.z != max.z)) ==> from.contains(i),
    decreases footprints.len(),
{
    if footprints.len() == 0 {
        Seq::empty()
    } else {
        let shorter = footprints.drop_last();
        let last = footprints.len() - 1;
        let before = law_which_footprints_are_flattened(shorter);
        let from = if is_flattened(footprints[last]) {
            before.push(last)
        } else {
            before
        };
        assert forall|k: int| 0 <= k < from.len() implies {
            &&& 0 <= #[trigger] from[k] < footprints.len()
            &&& !footprints[from[k]].0
            &&& footprints[from[k]].1 == Some(flattened(footprints)[k])
            &&& flattened(footprints)[k].0.x != flattened(footprints)[k].1.x || flattened(
                footprints,
            )[k].0.z != flattened(footprints)[k].1.z
        } by {
            if k < before.len() {
                assert(from[k] == before[k]);
                assert(shorter[before[k]] == footprints[before[k]]);
                assert(flattened(footprints)[k] == flattened(shorter)[k]);
            }
        }
        assert forall|i: int|
            0 <= i < footprints.len() && !(#[trigger] footprints[i]).0 && (footprints[i].1 matches Some(
                (min, max),
            ) && (min.x != max.x || min.z != max.z)) implies from.contains(i) by {
            if i < last {
                assert(shorter[i] == footprints[i]);
                assert(before.contains(i));
                let k = choose|k: int| 0 <= k < before.len() && before[k] == i;
                assert(from[k] == i);
            } else {
                assert(from[before.len() as int] == i);
            }
        }
        from
    }
}

/// As many are kept as there is room for, the first ones.
pub proof fn law_the_first_are_kept(list: Seq<(Cell, Cell)>, room: nat)
    ensures
        at_most(list, room).len() <= room,
        at_most(list, room).is_prefix_of(list),
        list.len() <= room ==> at_most(list, room) == list,
        list.len() > room ==> at_most(list, room).len() == room,
{
}

/// A layer costs one entry for every pixel, the layers in use cost that much each,
/// and there is room for exactly so many as fit. Of a picture without pixels there is
/// nothing to say.
pub proof fn law_what_layers_cost(width: u32, height: u32, limit: u64, layers: Option<u32>)
    ensures
        budget_of(width, height, limit, layers) is None <==> width == 0 || height == 0,
        budget_of(width, height, limit, layers) matches Some(budget) ==> {
            &&& budget.per_layer == ENTRY_BYTES * (width * height)
            &&& budget.room * budget.per_layer <= limit < (budget.room + 1) * budget.per_layer
            &&& layers matches Some(count) ==> budget.in_use == Some(
                (count * budget.per_layer) as u128,
            )
            &&& layers is None ==> budget.in_use is None
        },
{
    if let Some(budget) = budget_of(width, height, limit, layers) {
        assert(0 < width * height <= 0xffff_ffff * 0xffff_ffff) by (nonlinear_arith)
            requires
                0 < width <= 0xffff_ffff,
                0 < height <= 0xffff_ffff,
        ;
        let per_layer = (8 * (width * height)) as nat;
        assert(budget.per_layer == per_layer);
        law_room_is_exact(per_layer, limit as nat);
        let room = limit as nat / per_layer;
        assert(0 <= room <= limit) by (nonlinear_arith)
            requires
                per_layer > 0,
                room == limit as nat / per_layer,
        ;
        assert(budget.room == room);
    }
}

} // verus!
