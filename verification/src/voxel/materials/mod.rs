//! Material registry.
//!
//! Opacity is kept in percent (`0 ..= 100`): 100 is fully opaque.
use vstd::prelude::*;

pub mod ids;
pub mod phases;

verus! {

/// A material: id, display name, RGB color, opacity in percent and phase.
#[derive(Clone, Copy, Debug)]
pub struct Material {
    pub id: u16,
    pub name: &'static str,
    pub color: [u8; 3],
    pub opacity_percent: u8,
    pub phase: u8,
}

/// The registry: one material per id, in id order.
pub open spec fn material_table() -> Seq<(u16, Seq<u8>, u8, u8)> {
    seq![
        (ids::AIR, seq![0u8, 0u8, 0u8], 0u8, phases::GAS),
        (ids::BEDROCK, seq![30u8, 30u8, 30u8], 100u8, phases::SOLID),
        (ids::STONE, seq![128u8, 128u8, 128u8], 100u8, phases::SOLID),
        (ids::DIRT, seq![139u8, 90u8, 43u8], 100u8, phases::SOLID),
        (ids::GRASS, seq![34u8, 139u8, 34u8], 100u8, phases::SOLID),
        (ids::WATER, seq![30u8, 100u8, 200u8], 70u8, phases::LIQUID),
        (ids::CLAY, seq![180u8, 130u8, 100u8], 100u8, phases::SOLID),
    ]
}

/// The display names of the registry's materials, in id order.
pub open spec fn material_names() -> Seq<Seq<char>> {
    seq!["Air"@, "Bedrock"@, "Stone"@, "Dirt"@, "Grass"@, "Water"@, "Clay"@]
}

impl Material {
    /// The id, color, opacity and phase of the material.
    pub open spec fn summary(self) -> (u16, Seq<u8>, u8, u8) {
        (self.id, self.color@, self.opacity_percent, self.phase)
    }
}

/// Whether the registry holds a material with this id.
pub open spec fn is_known_material(id: u16) -> bool {
    (id as int) < material_table().len()
}

fn make(id: u16, name: &'static str, color: [u8; 3], opacity_percent: u8, phase: u8) -> (m: Material)
    ensures
        m.id == id,
        m.name == name,
        m.color == color,
        m.opacity_percent == opacity_percent,
        m.phase == phase,
{
    Material { id, name, color, opacity_percent, phase }
}

/// The registry of materials, in id order.
pub fn materials() -> (v: Vec<Material>)
    ensures
        v.len() == material_table().len(),
        forall|i: int| 0 <= i < v.len() ==> #[trigger] v@[i].summary() == material_table()[i],
        forall|i: int| 0 <= i < v.len() ==> #[trigger] v@[i].name@ == material_names()[i],
{
    let mut v: Vec<Material> = Vec::new();
    v.push(make(ids::AIR, "Air", [0, 0, 0], 0, phases::GAS));
    v.push(make(ids::BEDROCK, "Bedrock", [30, 30, 30], 100, phases::SOLID));
    v.push(make(ids::STONE, "Stone", [128, 128, 128], 100, phases::SOLID));
    v.push(make(ids::DIRT, "Dirt", [139, 90, 43], 100, phases::SOLID));
    v.push(make(ids::GRASS, "Grass", [34, 139, 34], 100, phases::SOLID));
    v.push(make(ids::WATER, "Water", [30, 100, 200], 70, phases::LIQUID));
    v.push(make(ids::CLAY, "Clay", [180, 130, 100], 100, phases::SOLID));
    proof {
        assert forall|i: int| 0 <= i < v.len() implies #[trigger] v@[i].summary() == material_table()[i] by {
            assert(v@[i].color@ =~= material_table()[i].1);
        }
    }
    v
}

/// Looks a material up by id: the first registry entry with that id.
pub fn get_material(id: u16) -> (r: Option<Material>)
    ensures
        is_known_material(id) <==> r is Some,
        r matches Some(m) ==> m.summary() == material_table()[id as int] && m.name@ == material_names()[id as int],
{
    let table = materials();
    let mut i: usize = 0;
    while i < table.len()
        invariant
            table.len() == material_table().len(),
            forall|k: int| 0 <= k < table.len() ==> #[trigger] table@[k].summary() == material_table()[k],
            forall|k: int| 0 <= k < table.len() ==> #[trigger] table@[k].name@ == material_names()[k],
            0 <= i <= table.len(),
            forall|k: int| 0 <= k < i ==> material_table()[k].0 != id,
        decreases table.len() - i,
    {
        assert(table@[i as int].summary() == material_table()[i as int]);
        if table[i].id == id {
            return Some(table[i]);
        }
        i = i + 1;
    }
    assert(!is_known_material(id)) by {
        if is_known_material(id) {
            assert(material_table()[id as int].0 == id);
        }
    }
    None
}

/// RGB color of a material; black for unknown ids.
pub fn material_color(id: u16) -> (r: [u8; 3])
    ensures
        is_known_material(id) ==> r@ == material_table()[id as int].1,
        !is_known_material(id) ==> r@ == seq![0u8, 0u8, 0u8],
{
    match get_material(id) {
        Some(m) => m.color,
        None => {
            let r = [0u8, 0u8, 0u8];
            assert(r@ =~= seq![0u8, 0u8, 0u8]);
            r
        }
    }
}

/// Light passes through the material: its opacity is below 100%, or the
/// id is unknown.
pub open spec fn transparent_material(id: u16) -> bool {
    if is_known_material(id) { material_table()[id as int].2 < 100 } else { true }
}

/// Whether light passes through the material: opacity below 100%, or an
/// unknown id.
pub fn is_transparent(id: u16) -> (r: bool)
    ensures
        r == transparent_material(id),
{
    match get_material(id) {
        Some(m) => m.opacity_percent < 100,
        None => true,
    }
}

/// Whether the id is air.
pub fn is_air(id: u16) -> (r: bool)
    ensures
        r <==> id == ids::AIR,
{
    id == ids::AIR
}

} // verus!
