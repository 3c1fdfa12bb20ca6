//! The example scene: a large ground sphere, a field of small random spheres
//! and three large spheres of glass, matte paint and metal.

use crate::geometry::vec3::Vec3;
use crate::materials::diaelectric::Diaelectric;
use crate::materials::lambertian::Lambertian;
use crate::materials::metal::Metal;
use crate::materials::{is_passive, Material};
use crate::numeric::fixed::{Fixed, SCALE};
use crate::random::{is_fraction, random_fraction};
use crate::render::is_passive_scene;
use crate::scenery::scene::Scene;
use crate::scenery::sphere::Sphere;
use vstd::prelude::*;

verus! {

/// The number of cells of the field of small spheres: 22 rows of 22 cells,
/// which cover the square from -11 to 11 in `x` and `z`.
pub const CELLS: usize = 484;

/// The random fractions that decide one small sphere: the kind of material,
/// the place within the cell, the tint, the blur of a metal and the index of
/// refraction of a glass.
#[derive(Clone, Copy, Debug, PartialEq, Eq, Structural)]
pub struct Lot {
    pub chooser: Fixed,
    pub shift_x: Fixed,
    pub shift_z: Fixed,
    pub tint: Vec3,
    pub fuzz: Fixed,
    pub index: Fixed,
}

/// The fraction `num / den` as a fixed-point number.
pub open spec fn ratio(num: i32, den: i32) -> Fixed {
    Fixed::from_int_spec(num).over(Fixed::from_int_spec(den))
}

/// Every number of the lot lies in `[0, 1)`.
pub open spec fn is_lot(lot: Lot) -> bool {
    &&& is_fraction(lot.chooser)
    &&& is_fraction(lot.shift_x)
    &&& is_fraction(lot.shift_z)
    &&& is_fraction(lot.tint.x)
    &&& is_fraction(lot.tint.y)
    &&& is_fraction(lot.tint.z)
    &&& is_fraction(lot.fuzz)
    &&& is_fraction(lot.index)
}

/// The ground: a matte grey sphere of radius 1000 that touches the origin
/// from below.
pub open spec fn ground() -> Sphere {
    Sphere {
        centre: Vec3 { x: Fixed::from_int_spec(0), y: Fixed::from_int_spec(-1000i32), z: Fixed::from_int_spec(0) },
        radius: Fixed::from_int_spec(1000),
        material: Material::Lambertian(Lambertian { albedo: Vec3 { x: ratio(1, 2), y: ratio(1, 2), z: ratio(1, 2) } }),
    }
}

/// The large glass sphere in the middle.
pub open spec fn glass_ball() -> Sphere {
    Sphere {
        centre: Vec3 { x: Fixed::from_int_spec(0), y: Fixed::from_int_spec(1), z: Fixed::from_int_spec(0) },
        radius: Fixed::from_int_spec(1),
        material: Material::Diaelectric(Diaelectric { refraction_index: Fixed::from_int_spec(1) }),
    }
}

/// The large matte sphere on the left.
pub open spec fn matte_ball() -> Sphere {
    Sphere {
        centre: Vec3 { x: Fixed::from_int_spec(-4i32), y: Fixed::from_int_spec(1), z: Fixed::from_int_spec(0) },
        radius: Fixed::from_int_spec(1),
        material: Material::Lambertian(Lambertian { albedo: Vec3 { x: ratio(2, 5), y: ratio(2, 5), z: ratio(1, 5) } }),
    }
}

/// The large mirror sphere on the right.
pub open spec fn mirror_ball() -> Sphere {
    Sphere {
        centre: Vec3 { x: Fixed::from_int_spec(4), y: Fixed::from_int_spec(1), z: Fixed::from_int_spec(0) },
        radius: Fixed::from_int_spec(1),
        material: Material::Metal(
            Metal { albedo: Vec3 { x: ratio(7, 10), y: ratio(3, 5), z: ratio(1, 2) }, fuzz: Fixed::from_int_spec(0) },
        ),
    }
}

/// The material of a small sphere: matte with the tint of the lot if the
/// chooser is below 4/5, else metal with the tint brightened to
/// `(1 + tint) / 2` if the chooser is below 19/20, else glass.
pub open spec fn small_material_spec(lot: Lot) -> Material {
    if lot.chooser@ < ratio(4, 5)@ {
        Material::Lambertian(Lambertian { albedo: lot.tint })
    } else if lot.chooser@ < ratio(19, 20)@ {
        let one = Fixed::from_int_spec(1);
        Material::Metal(
            Metal {
                albedo: Vec3 { x: one.plus(lot.tint.x), y: one.plus(lot.tint.y), z: one.plus(lot.tint.z) }.scaled(
                    ratio(1, 2),
                ),
                fuzz: lot.fuzz,
            },
        )
    } else {
        Material::Diaelectric(Diaelectric { refraction_index: lot.index })
    }
}

/// The centre of the small sphere of the cell `(i, j)`:
/// `(i + 0.9 * shift_x, 0.2, j + 0.9 * shift_z)`.
pub open spec fn small_centre_spec(i: i32, j: i32, lot: Lot) -> Vec3 {
    Vec3 {
        x: Fixed::from_int_spec(i).plus(ratio(9, 10).times(lot.shift_x)),
        y: ratio(1, 5),
        z: Fixed::from_int_spec(j).plus(ratio(9, 10).times(lot.shift_z)),
    }
}

/// The centre is more than 0.9 away from the point `(0.4, 0.2, 0)`, which
/// keeps the small spheres clear of the large one in the middle.
pub open spec fn is_clear(centre: Vec3) -> bool {
    centre.minus(Vec3 { x: ratio(2, 5), y: ratio(1, 5), z: Fixed::from_int_spec(0) }).length_spec()@ > ratio(
        9,
        10,
    )@
}

/// The small sphere of the cell `(i, j)`, of radius 0.2, if its centre is
/// clear of the middle.
pub open spec fn small_sphere_spec(i: i32, j: i32, lot: Lot) -> Option<Sphere> {
    let centre = small_centre_spec(i, j, lot);
    if is_clear(centre) {
        Some(Sphere { centre, radius: ratio(1, 5), material: small_material_spec(lot) })
    } else {
        None
    }
}

/// The material of a small sphere is passive.
pub proof fn lemma_small_material_passive(lot: Lot)
    requires
        is_lot(lot),
    ensures
        is_passive(small_material_spec(lot)),
{
    assert(SCALE == 0x1_0000_0000);
    assert(ratio(1, 2)@ == 0x8000_0000);
    let one = Fixed::from_int_spec(1);
    let half = ratio(1, 2);
    assert forall|f: Fixed| is_fraction(f) implies 0 <= #[trigger] one.plus(f).times(half)@ <= SCALE by {
        let w = one.plus(f);
        assert(w@ == SCALE + f@);
        assert(w@ * half@ / (SCALE as int) == w@ / 2) by (nonlinear_arith)
            requires
                half@ == 0x8000_0000,
                SCALE == 0x1_0000_0000,
        ;
    }
}

/// The four fixed spheres are passive.
pub proof fn lemma_fixed_spheres_passive()
    ensures
        is_passive(ground().material),
        is_passive(glass_ball().material),
        is_passive(matte_ball().material),
        is_passive(mirror_ball().material),
{
    assert(SCALE == 0x1_0000_0000);
    assert(ratio(1, 2)@ == 0x8000_0000);
    assert(ratio(2, 5)@ == 1717986918);
    assert(ratio(1, 5)@ == 858993459);
    assert(ratio(7, 10)@ == 3006477107);
    assert(ratio(3, 5)@ == 2576980377);
}

/// Draws the random fractions for one small sphere.
pub fn draw_lot() -> (lot: Lot)
    ensures
        is_lot(lot),
{
    let chooser: Fixed = random_fraction();
    let shift_x: Fixed = random_fraction();
    let shift_z: Fixed = random_fraction();
    let tint: Vec3 = Vec3::new(random_fraction(), random_fraction(), random_fraction());
    let fuzz: Fixed = random_fraction();
    let index: Fixed = random_fraction();
    Lot { chooser, shift_x, shift_z, tint, fuzz, index }
}

/// The small sphere of the cell `(i, j)` for the given lot, if its centre is
/// clear of the middle.
pub fn small_sphere(i: i32, j: i32, lot: Lot) -> (r: Option<Sphere>)
    ensures
        r == small_sphere_spec(i, j, lot),
{
    let nine_tenths: Fixed = Fixed::from_int(9) / Fixed::from_int(10);
    let fifth: Fixed = Fixed::from_int(1) / Fixed::from_int(5);
    let sphere_center: Vec3 = Vec3::new(
        Fixed::from_int(i) + nine_tenths * lot.shift_x,
        fifth,
        Fixed::from_int(j) + nine_tenths * lot.shift_z,
    );
    let middle: Vec3 = Vec3::new(Fixed::from_int(2) / Fixed::from_int(5), fifth, Fixed::from_int(0));
    if (sphere_center - middle).length().gt(nine_tenths) {
        let material: Material = if lot.chooser.lt(Fixed::from_int(4) / Fixed::from_int(5)) {
            Material::Lambertian(Lambertian { albedo: lot.tint })
        } else if lot.chooser.lt(Fixed::from_int(19) / Fixed::from_int(20)) {
            let one: Fixed = Fixed::from_int(1);
            Material::Metal(
                Metal {
                    albedo: Fixed::from_int(1) / Fixed::from_int(2) * Vec3::new(
                        one + lot.tint.x,
                        one + lot.tint.y,
                        one + lot.tint.z,
                    ),
                    fuzz: lot.fuzz,
                },
            )
        } else {
            Material::Diaelectric(Diaelectric { refraction_index: lot.index })
        };
        Some(Sphere::new(sphere_center, fifth, material))
    } else {
        None
    }
}

/// The row `i` of the cell with the given number, from -11 to 10; the cells
/// are numbered row by row.
pub open spec fn cell_row(index: int) -> int {
    index / 22 - 11
}

/// The column `j` of the cell with the given number, from -11 to 10.
pub open spec fn cell_column(index: int) -> int {
    index % 22 - 11
}

/// Every lot of the sequence holds fractions only.
pub open spec fn are_lots(lots: Seq<Lot>) -> bool {
    forall|k: int| 0 <= k < lots.len() ==> is_lot(#[trigger] lots[k])
}

/// The small spheres of the first cells, one lot for each cell: a cell whose
/// sphere would not be clear of the middle stays empty.
pub open spec fn field_spec(lots: Seq<Lot>) -> Seq<Sphere>
    decreases lots.len(),
{
    if lots.len() == 0 {
        Seq::empty()
    } else {
        let front = field_spec(lots.drop_last());
        let index = lots.len() - 1;
        match small_sphere_spec(cell_row(index) as i32, cell_column(index) as i32, lots.last()) {
            Some(sphere) => front.push(sphere),
            None => front,
        }
    }
}

/// The example scene for the given lots: the ground, the field of small
/// spheres, and the three large spheres.
pub open spec fn scene_spec(lots: Seq<Lot>) -> Seq<Sphere> {
    seq![ground()].add(field_spec(lots)).push(glass_ball()).push(matte_ball()).push(mirror_ball())
}

/// A field has at most one sphere for each lot, and all of them are passive.
pub proof fn lemma_field(lots: Seq<Lot>)
    requires
        are_lots(lots),
    ensures
        field_spec(lots).len() <= lots.len(),
        forall|k: int| 0 <= k < field_spec(lots).len() ==> is_passive(#[trigger] field_spec(lots)[k].material),
    decreases lots.len(),
{
    if lots.len() > 0 {
        lemma_field(lots.drop_last());
        lemma_small_material_passive(lots.last());
    }
}

/// The example scene has between 4 and `4 + lots.len()` spheres, and all of
/// them are passive.
pub proof fn lemma_scene(lots: Seq<Lot>)
    requires
        are_lots(lots),
    ensures
        4 <= scene_spec(lots).len() <= 4 + lots.len(),
        forall|k: int| 0 <= k < scene_spec(lots).len() ==> is_passive(#[trigger] scene_spec(lots)[k].material),
{
    lemma_field(lots);
    lemma_fixed_spheres_passive();
    let field = field_spec(lots);
    let scene = scene_spec(lots);
    assert forall|k: int| 0 <= k < scene.len() implies is_passive(#[trigger] scene[k].material) by {
        if 1 <= k <= field.len() {
            assert(scene[k] == field[k - 1]);
        }
    }
}

/// Builds the example scene from the given lots, one for each cell of the
/// grid, row by row. Lots beyond the number of cells are not used, and cells
/// without a lot stay empty.
pub fn make_scene_with(lots: &Vec<Lot>) -> (scene: Scene)
    ensures
        lots.len() <= CELLS ==> scene@ == scene_spec(lots@),
        lots.len() > CELLS ==> scene@ == scene_spec(lots@.take(CELLS as int)),
{
    let half: Fixed = Fixed::from_int(1) / Fixed::from_int(2);
    let mut scene: Scene = Scene::new();
    scene.add_object(
        Sphere::new(
            Vec3::new(Fixed::from_int(0), Fixed::from_int(-1000), Fixed::from_int(0)),
            Fixed::from_int(1000),
            Material::Lambertian(Lambertian { albedo: Vec3::new(half, half, half) }),
        ),
    );

    let count: usize = if lots.len() < CELLS {
        lots.len()
    } else {
        CELLS
    };
    let mut index: usize = 0;
    while index < count
        invariant
            index <= count <= 484,
            count <= lots.len(),
            scene@ == seq![ground()].add(field_spec(lots@.take(index as int))),
        decreases count - index,
    {
        let i: i32 = (index / 22) as i32 - 11;
        let j: i32 = (index % 22) as i32 - 11;
        proof {
            assert(lots@.take(index + 1).drop_last() =~= lots@.take(index as int));
            assert(lots@.take(index + 1).last() == lots@[index as int]);
        }
        let ghost before: Seq<Sphere> = field_spec(lots@.take(index as int));
        match small_sphere(i, j, lots[index]) {
            Some(sphere) => {
                scene.add_object(sphere);
                assert(scene@ =~= seq![ground()].add(before.push(sphere)));
            },
            None => {},
        }
        index += 1;
    }

    let one: Fixed = Fixed::from_int(1);
    let zero: Fixed = Fixed::from_int(0);
    scene.add_object(
        Sphere::new(Vec3::new(zero, one, zero), one, Material::Diaelectric(Diaelectric { refraction_index: one })),
    );
    scene.add_object(
        Sphere::new(
            Vec3::new(Fixed::from_int(-4), one, zero),
            one,
            Material::Lambertian(
                Lambertian {
                    albedo: Vec3::new(
                        Fixed::from_int(2) / Fixed::from_int(5),
                        Fixed::from_int(2) / Fixed::from_int(5),
                        Fixed::from_int(1) / Fixed::from_int(5),
                    ),
                },
            ),
        ),
    );
    scene.add_object(
        Sphere::new(
            Vec3::new(Fixed::from_int(4), one, zero),
            one,
            Material::Metal(
                Metal {
                    albedo: Vec3::new(
                        Fixed::from_int(7) / Fixed::from_int(10),
                        Fixed::from_int(3) / Fixed::from_int(5),
                        Fixed::from_int(1) / Fixed::from_int(2),
                    ),
                    fuzz: zero,
                },
            ),
        ),
    );
    proof {
        if lots.len() <= CELLS {
            assert(lots@.take(count as int) =~= lots@);
        }
    }
    scene
}

/// Builds the example scene with random lots: the ground, then at most one
/// small random sphere for each cell of the grid, then the three large
/// spheres.
pub fn make_scene() -> (scene: Scene)
    ensures
        exists|lots: Seq<Lot>| lots.len() == CELLS && are_lots(lots) && scene@ == #[trigger] scene_spec(lots),
        4 <= scene@.len() <= 488,
        is_passive_scene(&scene),
{
    let mut lots: Vec<Lot> = Vec::new();
    while lots.len() < CELLS
        invariant
            lots.len() <= CELLS,
            are_lots(lots@),
        decreases CELLS - lots.len(),
    {
        let lot: Lot = draw_lot();
        lots.push(lot);
    }
    let scene: Scene = make_scene_with(&lots);
    proof {
        lemma_scene(lots@);
    }
    scene
}

} // verus!
