//! STEP entity types and their conversion from parsed instances.
//!
//! A numeric parameter is kept as a [`RealValue`]: the literal as it was
//! written (or an integer), so that no conversion to floating point happens
//! here.

use vstd::prelude::*;
use crate::formats::step::p21::{
    StepValue, ValueModel, EntityInstance, EntityModel, models_of, lemma_models_of,
};
use crate::text::{chars_eq, string_from_chars};

verus! {

/// A numeric parameter: a real literal as written, or an integer.
#[derive(Debug)]
pub enum RealValue {
    Literal(String),
    Integer(i64),
}

/// The content of a [`RealValue`].
pub enum RealModel {
    Literal(Seq<char>),
    Integer(int),
}

impl RealValue {
    /// The content of this value.
    pub open spec fn model(self) -> RealModel {
        match self {
            RealValue::Literal(t) => RealModel::Literal(t@),
            RealValue::Integer(i) => RealModel::Integer(i as int),
        }
    }

    /// A copy of this value.
    pub fn duplicate(&self) -> (r: RealValue)
        ensures
            r.model() == self.model(),
    {
        match self {
            RealValue::Literal(t) => RealValue::Literal(t.clone()),
            RealValue::Integer(i) => RealValue::Integer(*i),
        }
    }
}

/// Three numeric parameters (x, y, z).
#[derive(Debug)]
pub struct Coords {
    pub x: RealValue,
    pub y: RealValue,
    pub z: RealValue,
}

/// The content of [`Coords`].
pub struct CoordsModel {
    pub x: RealModel,
    pub y: RealModel,
    pub z: RealModel,
}

impl Coords {
    /// The content of these coordinates.
    pub open spec fn model(self) -> CoordsModel {
        CoordsModel { x: self.x.model(), y: self.y.model(), z: self.z.model() }
    }

    /// A copy of these coordinates.
    pub fn duplicate(&self) -> (r: Coords)
        ensures
            r.model() == self.model(),
    {
        Coords { x: self.x.duplicate(), y: self.y.duplicate(), z: self.z.duplicate() }
    }
}

/// The references of a sequence, widened.
pub open spec fn u64s(v: Seq<u64>) -> Seq<nat> {
    v.map_values(|r: u64| r as nat)
}

/// An optional reference, widened.
pub open spec fn u64_opt(v: Option<u64>) -> Option<nat> {
    match v {
        Some(r) => Some(r as nat),
        None => None,
    }
}

/// The contents of a sequence of numeric values.
pub open spec fn real_models(v: Seq<RealValue>) -> Seq<RealModel> {
    v.map_values(|r: RealValue| r.model())
}

/// The references of a grid, widened.
pub open spec fn grids(v: Seq<Vec<u64>>) -> Seq<Seq<nat>> {
    v.map_values(|row: Vec<u64>| u64s(row@))
}

// ---------------------------------------------------------------------------
// Reading single values
// ---------------------------------------------------------------------------

/// The text of a string value; empty for any other value.
pub open spec fn str_of(v: ValueModel) -> Seq<char> {
    match v {
        ValueModel::Str(t) => t,
        _ => Seq::empty(),
    }
}

/// The target of a reference value.
pub open spec fn ref_of(v: ValueModel) -> Option<nat> {
    match v {
        ValueModel::Reference(r) => Some(r),
        _ => None,
    }
}

/// The truth of a logical value: `.T.` or `.TRUE.`; false otherwise.
pub open spec fn bool_of(v: ValueModel) -> bool {
    match v {
        ValueModel::Enum(t) => t == seq!['T'] || t == seq!['T', 'R', 'U', 'E'],
        _ => false,
    }
}

/// The STEP logical constants: `.T.` and `.TRUE.` read as true; `.F.`,
/// `.FALSE.` and `.U.` (unknown) read as false. Only an enumeration whose
/// name starts with `T` reads as true, so no other value does.
pub proof fn lemma_step_logicals()
    ensures
        bool_of(ValueModel::Enum(seq!['T'])),
        bool_of(ValueModel::Enum(seq!['T', 'R', 'U', 'E'])),
        !bool_of(ValueModel::Enum(seq!['F'])),
        !bool_of(ValueModel::Enum(seq!['F', 'A', 'L', 'S', 'E'])),
        !bool_of(ValueModel::Enum(seq!['U'])),
        forall|v: ValueModel|
            #[trigger] bool_of(v) ==> (v matches ValueModel::Enum(t) && t.len() > 0 && t[0] == 'T'),
{
    assert(seq!['F'][0] != seq!['T'][0]);
    assert(seq!['U'][0] != seq!['T'][0]);
    assert(seq!['F', 'A', 'L', 'S', 'E'].len() != seq!['T'].len());
    assert(seq!['F', 'A', 'L', 'S', 'E'][0] != seq!['T', 'R', 'U', 'E'][0]);
    assert(seq!['F'].len() != seq!['T', 'R', 'U', 'E'].len());
    assert(seq!['U'].len() != seq!['T', 'R', 'U', 'E'].len());
}

/// The name of an enumeration value; empty for any other value.
pub open spec fn enum_of(v: ValueModel) -> Seq<char> {
    match v {
        ValueModel::Enum(t) => t,
        _ => Seq::empty(),
    }
}

/// A numeric value; zero for any other value.
pub open spec fn real_of(v: ValueModel) -> RealModel {
    match v {
        ValueModel::Real(t) => RealModel::Literal(t),
        ValueModel::Integer(i) => RealModel::Integer(i),
        _ => RealModel::Literal(seq!['0']),
    }
}

/// The references among `items`, in order.
pub open spec fn refs_in(items: Seq<ValueModel>) -> Seq<nat>
    decreases items.len(),
{
    if items.len() == 0 {
        Seq::empty()
    } else {
        let rest = refs_in(items.drop_last());
        match items.last() {
            ValueModel::Reference(r) => rest.push(r),
            _ => rest,
        }
    }
}

/// The references of a list value; empty for any other value.
pub open spec fn refs_of(v: ValueModel) -> Seq<nat> {
    match v {
        ValueModel::List(items) => refs_in(items),
        _ => Seq::empty(),
    }
}

/// The numbers of a sequence of values.
pub open spec fn reals_in(items: Seq<ValueModel>) -> Seq<RealModel> {
    items.map_values(|x: ValueModel| real_of(x))
}

/// The numbers of a list value; empty for any other value.
pub open spec fn reals_of(v: ValueModel) -> Seq<RealModel> {
    match v {
        ValueModel::List(items) => reals_in(items),
        _ => Seq::empty(),
    }
}

/// The number at `k` of a list of values, zero when absent.
pub open spec fn real_at_or_zero(items: Seq<ValueModel>, k: int) -> RealModel {
    if 0 <= k < items.len() { real_of(items[k]) } else { RealModel::Literal(seq!['0']) }
}

/// The first three numbers of a list value (zero where absent).
pub open spec fn coords_of(v: ValueModel) -> CoordsModel {
    match v {
        ValueModel::List(items) => CoordsModel {
            x: real_at_or_zero(items, 0),
            y: real_at_or_zero(items, 1),
            z: real_at_or_zero(items, 2),
        },
        _ => CoordsModel {
            x: RealModel::Literal(seq!['0']),
            y: RealModel::Literal(seq!['0']),
            z: RealModel::Literal(seq!['0']),
        },
    }
}

/// The references of each of a sequence of values.
pub open spec fn rows_refs(rows: Seq<ValueModel>) -> Seq<Seq<nat>> {
    rows.map_values(|row: ValueModel| refs_of(row))
}

/// The rows of references of a list of lists.
pub open spec fn grid_of(v: ValueModel) -> Seq<Seq<nat>> {
    match v {
        ValueModel::List(rows) => rows_refs(rows),
        _ => Seq::empty(),
    }
}

// ---------------------------------------------------------------------------
// Reading parameters by position
// ---------------------------------------------------------------------------

/// The parameter at `k`, if there is one.
pub open spec fn param_at(ps: Seq<ValueModel>, k: int) -> Option<ValueModel> {
    if 0 <= k < ps.len() { Some(ps[k]) } else { None }
}

/// The string at `k`; empty when absent or not a string.
pub open spec fn string_param(ps: Seq<ValueModel>, k: int) -> Seq<char> {
    match param_at(ps, k) {
        Some(v) => str_of(v),
        None => Seq::empty(),
    }
}

/// The reference at `k`, if it is one.
pub open spec fn ref_param(ps: Seq<ValueModel>, k: int) -> Option<nat> {
    match param_at(ps, k) {
        Some(v) => ref_of(v),
        None => None,
    }
}

/// The reference at `k`, or `d`.
pub open spec fn ref_param_or(ps: Seq<ValueModel>, k: int, d: nat) -> nat {
    match ref_param(ps, k) {
        Some(r) => r,
        None => d,
    }
}

/// The logical at `k`, or `d` when absent.
pub open spec fn bool_param_or(ps: Seq<ValueModel>, k: int, d: bool) -> bool {
    match param_at(ps, k) {
        Some(v) => bool_of(v),
        None => d,
    }
}

/// The number at `k`, or `d` when absent.
pub open spec fn real_param_or(ps: Seq<ValueModel>, k: int, d: RealModel) -> RealModel {
    match param_at(ps, k) {
        Some(v) => real_of(v),
        None => d,
    }
}

/// The references of the list at `k`.
pub open spec fn refs_param(ps: Seq<ValueModel>, k: int) -> Seq<nat> {
    match param_at(ps, k) {
        Some(v) => refs_of(v),
        None => Seq::empty(),
    }
}

/// The numbers of the list at `k`.
pub open spec fn reals_param(ps: Seq<ValueModel>, k: int) -> Seq<RealModel> {
    match param_at(ps, k) {
        Some(v) => reals_of(v),
        None => Seq::empty(),
    }
}

/// The coordinates at `k`, or `d` when absent.
pub open spec fn coords_param_or(ps: Seq<ValueModel>, k: int, d: CoordsModel) -> CoordsModel {
    match param_at(ps, k) {
        Some(v) => coords_of(v),
        None => d,
    }
}

/// The grid of references at `k`.
pub open spec fn grid_param(ps: Seq<ValueModel>, k: int) -> Seq<Seq<nat>> {
    match param_at(ps, k) {
        Some(v) => grid_of(v),
        None => Seq::empty(),
    }
}

// ---------------------------------------------------------------------------
// Executable readers
// ---------------------------------------------------------------------------

/// Extract a string from a value (empty for any other value).
pub fn extract_string(value: &StepValue) -> (r: String)
    ensures
        r@ == str_of(value.model()),
{
    match value {
        StepValue::String(s) => s.clone(),
        _ => String::new(),
    }
}

/// Extract a number from a value (zero for any other value).
pub fn extract_real(value: &StepValue) -> (r: RealValue)
    ensures
        r.model() == real_of(value.model()),
{
    match value {
        StepValue::Real(t) => RealValue::Literal(t.clone()),
        StepValue::Integer(i) => RealValue::Integer(*i),
        _ => {
            let z: [char; 1] = ['0'];
            proof {
                assert(z@ =~= seq!['0']);
            }
            RealValue::Literal(string_from_chars(&z))
        },
    }
}

/// Extract a reference from a value.
pub fn extract_ref(value: &StepValue) -> (r: Option<u64>)
    ensures
        u64_opt(r) == ref_of(value.model()),
{
    match value {
        StepValue::Reference(r) => Some(*r),
        _ => None,
    }
}

/// Extract a logical from a value (`.T.` and `.TRUE.` are true).
pub fn extract_bool(value: &StepValue) -> (r: bool)
    ensures
        r == bool_of(value.model()),
{
    match value {
        StepValue::Enum(s) => {
            let t = crate::text::chars_of(s.as_str());
            let one: [char; 1] = ['T'];
            let four: [char; 4] = ['T', 'R', 'U', 'E'];
            proof {
                assert(one@ =~= seq!['T']);
                assert(four@ =~= seq!['T', 'R', 'U', 'E']);
            }
            chars_eq(&t, &one) || chars_eq(&t, &four)
        },
        _ => false,
    }
}

/// Extract an enumeration name from a value (empty for any other value).
pub fn extract_enum(value: &StepValue) -> (r: String)
    ensures
        r@ == enum_of(value.model()),
{
    match value {
        StepValue::Enum(s) => s.clone(),
        _ => String::new(),
    }
}

/// Extract the references of a list value.
pub fn extract_ref_list(value: &StepValue) -> (r: Vec<u64>)
    ensures
        u64s(r@) == refs_of(value.model()),
{
    let mut r: Vec<u64> = Vec::new();
    match value {
        StepValue::List(items) => {
            proof {
                lemma_models_of(items@);
            }
            let ghost ms = models_of(items@);
            let mut i: usize = 0;
            while i < items.len()
                invariant
                    i <= items@.len(),
                    ms == models_of(items@),
                    ms.len() == items@.len(),
                    forall|k: int| 0 <= k < items@.len() ==> #[trigger] ms[k] == items@[k].model(),
                    u64s(r@) == refs_in(ms.take(i as int)),
                decreases items@.len() - i,
            {
                proof {
                    assert(ms.take(i + 1).drop_last() =~= ms.take(i as int));
                    assert(ms.take(i + 1).last() == items@[i as int].model());
                }
                match &items[i] {
                    StepValue::Reference(x) => {
                        proof {
                            assert(u64s(r@.push(*x)) =~= u64s(r@).push(*x as nat));
                        }
                        r.push(*x);
                    },
                    _ => {},
                }
                i += 1;
            }
            proof {
                assert(ms.take(i as int) =~= ms);
            }
        },
        _ => {
            proof {
                assert(u64s(r@) =~= Seq::<nat>::empty());
            }
        },
    }
    r
}

/// Extract the numbers of a list value.
pub fn extract_real_list(value: &StepValue) -> (r: Vec<RealValue>)
    ensures
        real_models(r@) == reals_of(value.model()),
{
    let mut r: Vec<RealValue> = Vec::new();
    match value {
        StepValue::List(items) => {
            proof {
                lemma_models_of(items@);
            }
            let ghost ms = models_of(items@);
            let mut i: usize = 0;
            while i < items.len()
                invariant
                    i <= items@.len(),
                    ms == models_of(items@),
                    ms.len() == items@.len(),
                    forall|k: int| 0 <= k < items@.len() ==> #[trigger] ms[k] == items@[k].model(),
                    real_models(r@) == reals_in(ms.take(i as int)),
                decreases items@.len() - i,
            {
                let x = extract_real(&items[i]);
                proof {
                    assert(ms[i as int] == items@[i as int].model());
                    assert(real_models(r@.push(x)) =~= real_models(r@).push(x.model()));
                    assert(reals_in(ms.take(i + 1)) =~= reals_in(ms.take(i as int)).push(real_of(ms[i as int])));
                }
                r.push(x);
                i += 1;
            }
            proof {
                assert(ms.take(i as int) =~= ms);
            }
        },
        _ => {
            proof {
                assert(real_models(r@) =~= Seq::<RealModel>::empty());
            }
        },
    }
    r
}

/// Extract coordinates from a list value (zero where absent).
pub fn extract_coords(value: &StepValue) -> (r: Coords)
    ensures
        r.model() == coords_of(value.model()),
{
    match value {
        StepValue::List(items) => {
            proof {
                lemma_models_of(items@);
            }
            Coords {
                x: real_item_or_zero(items, 0),
                y: real_item_or_zero(items, 1),
                z: real_item_or_zero(items, 2),
            }
        },
        _ => Coords { x: zero_real(), y: zero_real(), z: zero_real() },
    }
}

/// The number zero.
fn zero_real() -> (r: RealValue)
    ensures
        r.model() == RealModel::Literal(seq!['0']),
{
    let z: [char; 1] = ['0'];
    proof {
        assert(z@ =~= seq!['0']);
    }
    RealValue::Literal(string_from_chars(&z))
}

/// The number at `k` of a list (zero when absent).
fn real_item_or_zero(items: &Vec<StepValue>, k: usize) -> (r: RealValue)
    ensures
        r.model() == real_at_or_zero(models_of(items@), k as int),
{
    proof {
        lemma_models_of(items@);
    }
    if k < items.len() {
        extract_real(&items[k])
    } else {
        zero_real()
    }
}

/// Extract rows of references (a B-spline control point grid).
pub fn extract_ref_grid(value: &StepValue) -> (r: Vec<Vec<u64>>)
    ensures
        grids(r@) == grid_of(value.model()),
{
    let mut r: Vec<Vec<u64>> = Vec::new();
    match value {
        StepValue::List(rows) => {
            proof {
                lemma_models_of(rows@);
            }
            let ghost ms = models_of(rows@);
            let mut i: usize = 0;
            while i < rows.len()
                invariant
                    i <= rows@.len(),
                    ms == models_of(rows@),
                    ms.len() == rows@.len(),
                    forall|k: int| 0 <= k < rows@.len() ==> #[trigger] ms[k] == rows@[k].model(),
                    grids(r@) == rows_refs(ms.take(i as int)),
                decreases rows@.len() - i,
            {
                let x = extract_ref_list(&rows[i]);
                proof {
                    assert(ms[i as int] == rows@[i as int].model());
                    assert(grids(r@.push(x)) =~= grids(r@).push(u64s(x@)));
                    assert(rows_refs(ms.take(i + 1)) =~= rows_refs(ms.take(i as int)).push(refs_of(ms[i as int])));
                }
                r.push(x);
                i += 1;
            }
            proof {
                assert(ms.take(i as int) =~= ms);
            }
        },
        _ => {
            proof {
                assert(grids(r@) =~= Seq::<Seq<nat>>::empty());
            }
        },
    }
    r
}

/// Whether `t` spells `lit`.
fn label_is(t: &[char], lit: &str) -> (r: bool)
    ensures
        r == (t@ == lit@),
{
    let l = crate::text::chars_of(lit);
    chars_eq(t, &l)
}

/// The string parameter at `k` (empty when absent or not a string).
fn param_string(ps: &Vec<StepValue>, k: usize) -> (r: String)
    ensures
        r@ == string_param(models_of(ps@), k as int),
{
    proof {
        lemma_models_of(ps@);
    }
    if k < ps.len() {
        extract_string(&ps[k])
    } else {
        String::new()
    }
}

/// The reference parameter at `k`.
fn param_ref(ps: &Vec<StepValue>, k: usize) -> (r: Option<u64>)
    ensures
        u64_opt(r) == ref_param(models_of(ps@), k as int),
{
    proof {
        lemma_models_of(ps@);
    }
    if k < ps.len() {
        extract_ref(&ps[k])
    } else {
        None
    }
}

/// The reference parameter at `k`, or `d`.
fn param_ref_or(ps: &Vec<StepValue>, k: usize, d: u64) -> (r: u64)
    ensures
        r as nat == ref_param_or(models_of(ps@), k as int, d as nat),
{
    match param_ref(ps, k) {
        Some(x) => x,
        None => d,
    }
}

/// The logical parameter at `k`, or `d` when absent.
fn param_bool_or(ps: &Vec<StepValue>, k: usize, d: bool) -> (r: bool)
    ensures
        r == bool_param_or(models_of(ps@), k as int, d),
{
    proof {
        lemma_models_of(ps@);
    }
    if k < ps.len() {
        extract_bool(&ps[k])
    } else {
        d
    }
}

/// The numeric parameter at `k`, or the literal `d` when absent.
fn param_real_or(ps: &Vec<StepValue>, k: usize, d: &[char]) -> (r: RealValue)
    ensures
        r.model() == real_param_or(models_of(ps@), k as int, RealModel::Literal(d@)),
{
    proof {
        lemma_models_of(ps@);
    }
    if k < ps.len() {
        extract_real(&ps[k])
    } else {
        RealValue::Literal(string_from_chars(d))
    }
}

/// The references of the list parameter at `k`.
fn param_refs(ps: &Vec<StepValue>, k: usize) -> (r: Vec<u64>)
    ensures
        u64s(r@) == refs_param(models_of(ps@), k as int),
{
    proof {
        lemma_models_of(ps@);
    }
    if k < ps.len() {
        extract_ref_list(&ps[k])
    } else {
        let r: Vec<u64> = Vec::new();
        proof {
            assert(u64s(r@) =~= Seq::<nat>::empty());
        }
        r
    }
}

/// The numbers of the list parameter at `k`.
fn param_reals(ps: &Vec<StepValue>, k: usize) -> (r: Vec<RealValue>)
    ensures
        real_models(r@) == reals_param(models_of(ps@), k as int),
{
    proof {
        lemma_models_of(ps@);
    }
    if k < ps.len() {
        extract_real_list(&ps[k])
    } else {
        let r: Vec<RealValue> = Vec::new();
        proof {
            assert(real_models(r@) =~= Seq::<RealModel>::empty());
        }
        r
    }
}

/// The coordinates parameter at `k`, or the literals `x y z` when absent.
fn param_coords_or(ps: &Vec<StepValue>, k: usize, x: &[char], y: &[char], z: &[char]) -> (r: Coords)
    ensures
        r.model() == coords_param_or(
            models_of(ps@),
            k as int,
            CoordsModel {
                x: RealModel::Literal(x@),
                y: RealModel::Literal(y@),
                z: RealModel::Literal(z@),
            },
        ),
{
    proof {
        lemma_models_of(ps@);
    }
    if k < ps.len() {
        extract_coords(&ps[k])
    } else {
        Coords {
            x: RealValue::Literal(string_from_chars(x)),
            y: RealValue::Literal(string_from_chars(y)),
            z: RealValue::Literal(string_from_chars(z)),
        }
    }
}

/// The grid of references at `k`.
fn param_grid(ps: &Vec<StepValue>, k: usize) -> (r: Vec<Vec<u64>>)
    ensures
        grids(r@) == grid_param(models_of(ps@), k as int),
{
    proof {
        lemma_models_of(ps@);
    }
    if k < ps.len() {
        extract_ref_grid(&ps[k])
    } else {
        let r: Vec<Vec<u64>> = Vec::new();
        proof {
            assert(grids(r@) =~= Seq::<Seq<nat>>::empty());
        }
        r
    }
}

/// A point (`CARTESIAN_POINT`).
#[derive(Debug)]
pub struct CartesianPoint {
    pub id: u64,
    pub name: String,
    pub coords: Coords,
}

/// A direction (`DIRECTION`).
#[derive(Debug)]
pub struct Direction {
    pub id: u64,
    pub name: String,
    pub ratios: Coords,
}

/// A vector (`VECTOR`).
#[derive(Debug)]
pub struct Vector {
    pub id: u64,
    pub name: String,
    pub orientation: u64,
    pub magnitude: RealValue,
}

/// An axis placement (`AXIS1_PLACEMENT`).
#[derive(Debug)]
pub struct Axis1Placement {
    pub id: u64,
    pub name: String,
    pub location: u64,
    pub axis: Option<u64>,
}

/// A 3D axis placement (`AXIS2_PLACEMENT_3D`).
#[derive(Debug)]
pub struct Axis2Placement3D {
    pub id: u64,
    pub name: String,
    pub location: u64,
    pub axis: Option<u64>,
    pub ref_direction: Option<u64>,
}

/// A line (`LINE`).
#[derive(Debug)]
pub struct Line {
    pub id: u64,
    pub name: String,
    pub point: u64,
    pub direction: u64,
}

/// A circle (`CIRCLE`).
#[derive(Debug)]
pub struct Circle {
    pub id: u64,
    pub name: String,
    pub position: u64,
    pub radius: RealValue,
}

/// An ellipse (`ELLIPSE`).
#[derive(Debug)]
pub struct Ellipse {
    pub id: u64,
    pub name: String,
    pub position: u64,
    pub semi_axis_1: RealValue,
    pub semi_axis_2: RealValue,
}

/// A plane (`PLANE`).
#[derive(Debug)]
pub struct Plane {
    pub id: u64,
    pub name: String,
    pub position: u64,
}

/// A cylindrical surface.
#[derive(Debug)]
pub struct CylindricalSurface {
    pub id: u64,
    pub name: String,
    pub position: u64,
    pub radius: RealValue,
}

/// A conical surface.
#[derive(Debug)]
pub struct ConicalSurface {
    pub id: u64,
    pub name: String,
    pub position: u64,
    pub radius: RealValue,
    pub semi_angle: RealValue,
}

/// A spherical surface.
#[derive(Debug)]
pub struct SphericalSurface {
    pub id: u64,
    pub name: String,
    pub position: u64,
    pub radius: RealValue,
}

/// A toroidal surface.
#[derive(Debug)]
pub struct ToroidalSurface {
    pub id: u64,
    pub name: String,
    pub position: u64,
    pub major_radius: RealValue,
    pub minor_radius: RealValue,
}

/// A B-spline surface with knots; degrees and multiplicities are kept as written.
#[derive(Debug)]
pub struct BSplineSurface {
    pub id: u64,
    pub name: String,
    pub u_degree: RealValue,
    pub v_degree: RealValue,
    pub control_points: Vec<Vec<u64>>,
    pub surface_form: String,
    pub u_closed: bool,
    pub v_closed: bool,
    pub self_intersect: bool,
    pub u_multiplicities: Vec<RealValue>,
    pub v_multiplicities: Vec<RealValue>,
    pub u_knots: Vec<RealValue>,
    pub v_knots: Vec<RealValue>,
}

/// A vertex (`VERTEX_POINT`).
#[derive(Debug)]
pub struct VertexPoint {
    pub id: u64,
    pub name: String,
    pub point: u64,
}

/// An edge (`EDGE_CURVE`).
#[derive(Debug)]
pub struct EdgeCurve {
    pub id: u64,
    pub name: String,
    pub start_vertex: u64,
    pub end_vertex: u64,
    pub curve: u64,
    pub same_sense: bool,
}

/// An oriented edge.
#[derive(Debug)]
pub struct OrientedEdge {
    pub id: u64,
    pub name: String,
    pub edge: u64,
    pub orientation: bool,
}

/// An edge loop.
#[derive(Debug)]
pub struct EdgeLoop {
    pub id: u64,
    pub name: String,
    pub edges: Vec<u64>,
}

/// A face bound.
#[derive(Debug)]
pub struct FaceBound {
    pub id: u64,
    pub name: String,
    pub bound: u64,
    pub orientation: bool,
}

/// An outer face bound.
#[derive(Debug)]
pub struct FaceOuterBound {
    pub id: u64,
    pub name: String,
    pub bound: u64,
    pub orientation: bool,
}

/// An advanced face.
#[derive(Debug)]
pub struct AdvancedFace {
    pub id: u64,
    pub name: String,
    pub bounds: Vec<u64>,
    pub surface: u64,
    pub same_sense: bool,
}

/// A closed shell.
#[derive(Debug)]
pub struct ClosedShell {
    pub id: u64,
    pub name: String,
    pub faces: Vec<u64>,
}

/// An open shell.
#[derive(Debug)]
pub struct OpenShell {
    pub id: u64,
    pub name: String,
    pub faces: Vec<u64>,
}

/// A manifold solid B-rep.
#[derive(Debug)]
pub struct ManifoldSolidBrep {
    pub id: u64,
    pub name: String,
    pub outer: u64,
}

/// A faceted B-rep.
#[derive(Debug)]
pub struct FacetedBrep {
    pub id: u64,
    pub name: String,
    pub outer: u64,
}

/// A shell-based surface model.
#[derive(Debug)]
pub struct ShellBasedSurfaceModel {
    pub id: u64,
    pub name: String,
    pub shells: Vec<u64>,
}

/// A shape representation.
#[derive(Debug)]
pub struct ShapeRepresentation {
    pub id: u64,
    pub name: String,
    pub items: Vec<u64>,
    pub context: u64,
}

/// An advanced B-rep shape representation.
#[derive(Debug)]
pub struct AdvancedBrepShapeRepresentation {
    pub id: u64,
    pub name: String,
    pub items: Vec<u64>,
    pub context: u64,
}

/// A product.
#[derive(Debug)]
pub struct Product {
    pub id: u64,
    pub product_id: String,
    pub name: String,
    pub description: String,
}

/// A product definition.
#[derive(Debug)]
pub struct ProductDefinition {
    pub id: u64,
    pub name: String,
    pub description: String,
    pub formation: u64,
}

/// A product definition shape.
#[derive(Debug)]
pub struct ProductDefinitionShape {
    pub id: u64,
    pub name: String,
    pub description: String,
    pub definition: u64,
}

/// A shape definition representation.
#[derive(Debug)]
pub struct ShapeDefinitionRepresentation {
    pub id: u64,
    pub definition: u64,
    pub used_representation: u64,
}

/// An assembly usage occurrence (parent/child link).
#[derive(Debug)]
pub struct NextAssemblyUsageOccurrence {
    pub id: u64,
    pub nauo_id: String,
    pub name: String,
    pub relating_product: u64,
    pub related_product: u64,
}

/// A transformation between two axis placements.
#[derive(Debug)]
pub struct ItemDefinedTransformation {
    pub id: u64,
    pub name: String,
    pub transform_item_1: u64,
    pub transform_item_2: u64,
}

/// A context-dependent shape representation.
#[derive(Debug)]
pub struct ContextDependentShapeRepresentation {
    pub id: u64,
    pub representation_relation: u64,
    pub represented_product_relation: u64,
}

/// A B-spline curve; the degree and multiplicities are kept as written.
#[derive(Debug)]
pub struct BSplineCurve {
    pub id: u64,
    pub name: String,
    pub degree: RealValue,
    pub control_points: Vec<u64>,
    pub curve_form: String,
    pub closed: bool,
    pub self_intersect: bool,
    pub knots: Vec<RealValue>,
    pub knot_multiplicities: Vec<RealValue>,
}

/// A representation context.
#[derive(Debug)]
pub struct RepresentationContext {
    pub id: u64,
    pub identifier: String,
    pub context_type: String,
}

/// A geometric representation context.
#[derive(Debug)]
pub struct GeometricRepresentationContext {
    pub id: u64,
    pub identifier: String,
    pub context_type: String,
    pub dimension: u32,
}

/// A representation relationship carrying a transformation.
#[derive(Debug)]
pub struct RepresentationRelationshipWithTransformation {
    pub id: u64,
    pub name: String,
    pub rep1: u64,
    pub rep2: u64,
    pub transformation_operator: u64,
}

/// A processed STEP entity.
#[derive(Debug)]
pub enum StepEntity {
    CartesianPoint(CartesianPoint),
    Direction(Direction),
    Vector(Vector),
    Axis1Placement(Axis1Placement),
    Axis2Placement3D(Axis2Placement3D),
    Line(Line),
    Circle(Circle),
    Ellipse(Ellipse),
    Plane(Plane),
    CylindricalSurface(CylindricalSurface),
    ConicalSurface(ConicalSurface),
    SphericalSurface(SphericalSurface),
    ToroidalSurface(ToroidalSurface),
    BSplineSurface(BSplineSurface),
    VertexPoint(VertexPoint),
    EdgeCurve(EdgeCurve),
    OrientedEdge(OrientedEdge),
    EdgeLoop(EdgeLoop),
    FaceBound(FaceBound),
    FaceOuterBound(FaceOuterBound),
    AdvancedFace(AdvancedFace),
    ClosedShell(ClosedShell),
    OpenShell(OpenShell),
    ManifoldSolidBrep(ManifoldSolidBrep),
    FacetedBrep(FacetedBrep),
    ShellBasedSurfaceModel(ShellBasedSurfaceModel),
    ShapeRepresentation(ShapeRepresentation),
    AdvancedBrepShapeRepresentation(AdvancedBrepShapeRepresentation),
    GeometricallyBoundedSurfaceShapeRepresentation(ShapeRepresentation),
    FacetedBrepShapeRepresentation(ShapeRepresentation),
    Product(Product),
    ProductDefinition(ProductDefinition),
    ProductDefinitionShape(ProductDefinitionShape),
    ShapeDefinitionRepresentation(ShapeDefinitionRepresentation),
    NextAssemblyUsageOccurrence(NextAssemblyUsageOccurrence),
    ItemDefinedTransformation(ItemDefinedTransformation),
    ContextDependentShapeRepresentation(ContextDependentShapeRepresentation),
    BSplineCurve(BSplineCurve),
    RepresentationContext(RepresentationContext),
    GeometricRepresentationContext(GeometricRepresentationContext),
    RepresentationRelationshipWithTransformation(RepresentationRelationshipWithTransformation),
    /// Unknown/unsupported
    Unknown { type_label: String, id: u64 },
}

/// The entity type names that have a conversion, in the order they are tried.
#[derive(PartialEq, Eq, Structural, Clone, Copy, Debug)]
pub enum EntityKind {
    CartesianPoint,
    Direction,
    Vector,
    Axis1Placement,
    Axis2Placement3D,
    Line,
    Circle,
    Ellipse,
    Plane,
    CylindricalSurface,
    ConicalSurface,
    SphericalSurface,
    ToroidalSurface,
    BSplineSurface,
    VertexPoint,
    EdgeCurve,
    OrientedEdge,
    EdgeLoop,
    FaceBound,
    FaceOuterBound,
    AdvancedFace,
    ClosedShell,
    OpenShell,
    ManifoldSolidBrep,
    FacetedBrep,
    ShellBasedSurfaceModel,
    ShapeRepresentation,
    WireframeShapeRepresentation,
    AdvancedBrepShapeRepresentation,
    GeometricallyBoundedSurfaceShapeRepresentation,
    FacetedBrepShapeRepresentation,
    Product,
    ProductDefinition,
    ProductDefinitionShape,
    ShapeDefinitionRepresentation,
    NextAssemblyUsageOccurrence,
    ItemDefinedTransformation,
    ContextDependentShapeRepresentation,
    RepresentationRelationship,
    Other,
}

/// The kind of an entity type name.
pub open spec fn kind_of(t: Seq<char>) -> EntityKind {
    if t == "CARTESIAN_POINT"@ {
        EntityKind::CartesianPoint
    } else if t == "DIRECTION"@ {
        EntityKind::Direction
    } else if t == "VECTOR"@ {
        EntityKind::Vector
    } else if t == "AXIS1_PLACEMENT"@ {
        EntityKind::Axis1Placement
    } else if t == "AXIS2_PLACEMENT_3D"@ {
        EntityKind::Axis2Placement3D
    } else if t == "LINE"@ {
        EntityKind::Line
    } else if t == "CIRCLE"@ {
        EntityKind::Circle
    } else if t == "ELLIPSE"@ {
        EntityKind::Ellipse
    } else if t == "PLANE"@ {
        EntityKind::Plane
    } else if t == "CYLINDRICAL_SURFACE"@ {
        EntityKind::CylindricalSurface
    } else if t == "CONICAL_SURFACE"@ {
        EntityKind::ConicalSurface
    } else if t == "SPHERICAL_SURFACE"@ {
        EntityKind::SphericalSurface
    } else if t == "TOROIDAL_SURFACE"@ {
        EntityKind::ToroidalSurface
    } else if t == "B_SPLINE_SURFACE_WITH_KNOTS"@ {
        EntityKind::BSplineSurface
    } else if t == "VERTEX_POINT"@ {
        EntityKind::VertexPoint
    } else if t == "EDGE_CURVE"@ {
        EntityKind::EdgeCurve
    } else if t == "ORIENTED_EDGE"@ {
        EntityKind::OrientedEdge
    } else if t == "EDGE_LOOP"@ {
        EntityKind::EdgeLoop
    } else if t == "FACE_BOUND"@ {
        EntityKind::FaceBound
    } else if t == "FACE_OUTER_BOUND"@ {
        EntityKind::FaceOuterBound
    } else if t == "ADVANCED_FACE"@ {
        EntityKind::AdvancedFace
    } else if t == "CLOSED_SHELL"@ {
        EntityKind::ClosedShell
    } else if t == "OPEN_SHELL"@ {
        EntityKind::OpenShell
    } else if t == "MANIFOLD_SOLID_BREP"@ {
        EntityKind::ManifoldSolidBrep
    } else if t == "FACETED_BREP"@ {
        EntityKind::FacetedBrep
    } else if t == "SHELL_BASED_SURFACE_MODEL"@ {
        EntityKind::ShellBasedSurfaceModel
    } else if t == "SHAPE_REPRESENTATION"@ {
        EntityKind::ShapeRepresentation
    } else if t == "GEOMETRICALLY_BOUNDED_WIREFRAME_SHAPE_REPRESENTATION"@ {
        EntityKind::WireframeShapeRepresentation
    } else if t == "ADVANCED_BREP_SHAPE_REPRESENTATION"@ {
        EntityKind::AdvancedBrepShapeRepresentation
    } else if t == "GEOMETRICALLY_BOUNDED_SURFACE_SHAPE_REPRESENTATION"@ {
        EntityKind::GeometricallyBoundedSurfaceShapeRepresentation
    } else if t == "FACETED_BREP_SHAPE_REPRESENTATION"@ {
        EntityKind::FacetedBrepShapeRepresentation
    } else if t == "PRODUCT"@ {
        EntityKind::Product
    } else if t == "PRODUCT_DEFINITION"@ {
        EntityKind::ProductDefinition
    } else if t == "PRODUCT_DEFINITION_SHAPE"@ {
        EntityKind::ProductDefinitionShape
    } else if t == "SHAPE_DEFINITION_REPRESENTATION"@ {
        EntityKind::ShapeDefinitionRepresentation
    } else if t == "NEXT_ASSEMBLY_USAGE_OCCURRENCE"@ {
        EntityKind::NextAssemblyUsageOccurrence
    } else if t == "ITEM_DEFINED_TRANSFORMATION"@ {
        EntityKind::ItemDefinedTransformation
    } else if t == "CONTEXT_DEPENDENT_SHAPE_REPRESENTATION"@ {
        EntityKind::ContextDependentShapeRepresentation
    } else if t == "REPRESENTATION_RELATIONSHIP"@ {
        EntityKind::RepresentationRelationship
    } else {
        EntityKind::Other
    }
}

/// The kind of an entity type name.
fn classify(t: &[char]) -> (k: EntityKind)
    ensures
        k == kind_of(t@),
{
    if label_is(t, "CARTESIAN_POINT") {
        EntityKind::CartesianPoint
    } else if label_is(t, "DIRECTION") {
        EntityKind::Direction
    } else if label_is(t, "VECTOR") {
        EntityKind::Vector
    } else if label_is(t, "AXIS1_PLACEMENT") {
        EntityKind::Axis1Placement
    } else if label_is(t, "AXIS2_PLACEMENT_3D") {
        EntityKind::Axis2Placement3D
    } else if label_is(t, "LINE") {
        EntityKind::Line
    } else if label_is(t, "CIRCLE") {
        EntityKind::Circle
    } else if label_is(t, "ELLIPSE") {
        EntityKind::Ellipse
    } else if label_is(t, "PLANE") {
        EntityKind::Plane
    } else if label_is(t, "CYLINDRICAL_SURFACE") {
        EntityKind::CylindricalSurface
    } else if label_is(t, "CONICAL_SURFACE") {
        EntityKind::ConicalSurface
    } else if label_is(t, "SPHERICAL_SURFACE") {
        EntityKind::SphericalSurface
    } else if label_is(t, "TOROIDAL_SURFACE") {
        EntityKind::ToroidalSurface
    } else if label_is(t, "B_SPLINE_SURFACE_WITH_KNOTS") {
        EntityKind::BSplineSurface
    } else if label_is(t, "VERTEX_POINT") {
        EntityKind::VertexPoint
    } else if label_is(t, "EDGE_CURVE") {
        EntityKind::EdgeCurve
    } else if label_is(t, "ORIENTED_EDGE") {
        EntityKind::OrientedEdge
    } else if label_is(t, "EDGE_LOOP") {
        EntityKind::EdgeLoop
    } else if label_is(t, "FACE_BOUND") {
        EntityKind::FaceBound
    } else if label_is(t, "FACE_OUTER_BOUND") {
        EntityKind::FaceOuterBound
    } else if label_is(t, "ADVANCED_FACE") {
        EntityKind::AdvancedFace
    } else if label_is(t, "CLOSED_SHELL") {
        EntityKind::ClosedShell
    } else if label_is(t, "OPEN_SHELL") {
        EntityKind::OpenShell
    } else if label_is(t, "MANIFOLD_SOLID_BREP") {
        EntityKind::ManifoldSolidBrep
    } else if label_is(t, "FACETED_BREP") {
        EntityKind::FacetedBrep
    } else if label_is(t, "SHELL_BASED_SURFACE_MODEL") {
        EntityKind::ShellBasedSurfaceModel
    } else if label_is(t, "SHAPE_REPRESENTATION") {
        EntityKind::ShapeRepresentation
    } else if label_is(t, "GEOMETRICALLY_BOUNDED_WIREFRAME_SHAPE_REPRESENTATION") {
        EntityKind::WireframeShapeRepresentation
    } else if label_is(t, "ADVANCED_BREP_SHAPE_REPRESENTATION") {
        EntityKind::AdvancedBrepShapeRepresentation
    } else if label_is(t, "GEOMETRICALLY_BOUNDED_SURFACE_SHAPE_REPRESENTATION") {
        EntityKind::GeometricallyBoundedSurfaceShapeRepresentation
    } else if label_is(t, "FACETED_BREP_SHAPE_REPRESENTATION") {
        EntityKind::FacetedBrepShapeRepresentation
    } else if label_is(t, "PRODUCT") {
        EntityKind::Product
    } else if label_is(t, "PRODUCT_DEFINITION") {
        EntityKind::ProductDefinition
    } else if label_is(t, "PRODUCT_DEFINITION_SHAPE") {
        EntityKind::ProductDefinitionShape
    } else if label_is(t, "SHAPE_DEFINITION_REPRESENTATION") {
        EntityKind::ShapeDefinitionRepresentation
    } else if label_is(t, "NEXT_ASSEMBLY_USAGE_OCCURRENCE") {
        EntityKind::NextAssemblyUsageOccurrence
    } else if label_is(t, "ITEM_DEFINED_TRANSFORMATION") {
        EntityKind::ItemDefinedTransformation
    } else if label_is(t, "CONTEXT_DEPENDENT_SHAPE_REPRESENTATION") {
        EntityKind::ContextDependentShapeRepresentation
    } else if label_is(t, "REPRESENTATION_RELATIONSHIP") {
        EntityKind::RepresentationRelationship
    } else {
        EntityKind::Other
    }
}

/// What the entity converted from an instance holds, kind by kind.
pub open spec fn converted(e: StepEntity, m: EntityModel) -> bool {
    let ps = m.params;
    match kind_of(m.type_label) {
        EntityKind::CartesianPoint => e matches StepEntity::CartesianPoint(x) && x.id == m.id && x.name@ == string_param(ps, 0) && x.coords.model() == coords_param_or(ps, 1, CoordsModel { x: RealModel::Literal(seq!['0']), y: RealModel::Literal(seq!['0']), z: RealModel::Literal(seq!['0']) }),
        EntityKind::Direction => e matches StepEntity::Direction(x) && x.id == m.id && x.name@ == string_param(ps, 0) && x.ratios.model() == coords_param_or(ps, 1, CoordsModel { x: RealModel::Literal(seq!['0']), y: RealModel::Literal(seq!['0']), z: RealModel::Literal(seq!['1']) }),
        EntityKind::Vector => e matches StepEntity::Vector(x) && x.id == m.id && x.name@ == string_param(ps, 0) && x.orientation as nat == ref_param_or(ps, 1, 0) && x.magnitude.model() == real_param_or(ps, 2, RealModel::Literal(seq!['1'])),
        EntityKind::Axis1Placement => e matches StepEntity::Axis1Placement(x) && x.id == m.id && x.name@ == string_param(ps, 0) && x.location as nat == ref_param_or(ps, 1, 0) && u64_opt(x.axis) == ref_param(ps, 2),
        EntityKind::Axis2Placement3D => e matches StepEntity::Axis2Placement3D(x) && x.id == m.id && x.name@ == string_param(ps, 0) && x.location as nat == ref_param_or(ps, 1, 0) && u64_opt(x.axis) == ref_param(ps, 2) && u64_opt(x.ref_direction) == ref_param(ps, 3),
        EntityKind::Line => e matches StepEntity::Line(x) && x.id == m.id && x.name@ == string_param(ps, 0) && x.point as nat == ref_param_or(ps, 1, 0) && x.direction as nat == ref_param_or(ps, 2, 0),
        EntityKind::Circle => e matches StepEntity::Circle(x) && x.id == m.id && x.name@ == string_param(ps, 0) && x.position as nat == ref_param_or(ps, 1, 0) && x.radius.model() == real_param_or(ps, 2, RealModel::Literal(seq!['1'])),
        EntityKind::Ellipse => e matches StepEntity::Ellipse(x) && x.id == m.id && x.name@ == string_param(ps, 0) && x.position as nat == ref_param_or(ps, 1, 0) && x.semi_axis_1.model() == real_param_or(ps, 2, RealModel::Literal(seq!['1'])) && x.semi_axis_2.model() == real_param_or(ps, 3, RealModel::Literal(seq!['1'])),
        EntityKind::Plane => e matches StepEntity::Plane(x) && x.id == m.id && x.name@ == string_param(ps, 0) && x.position as nat == ref_param_or(ps, 1, 0),
        EntityKind::CylindricalSurface => e matches StepEntity::CylindricalSurface(x) && x.id == m.id && x.name@ == string_param(ps, 0) && x.position as nat == ref_param_or(ps, 1, 0) && x.radius.model() == real_param_or(ps, 2, RealModel::Literal(seq!['1'])),
        EntityKind::ConicalSurface => e matches StepEntity::ConicalSurface(x) && x.id == m.id && x.name@ == string_param(ps, 0) && x.position as nat == ref_param_or(ps, 1, 0) && x.radius.model() == real_param_or(ps, 2, RealModel::Literal(seq!['1'])) && x.semi_angle.model() == real_param_or(ps, 3, RealModel::Literal(seq!['0'])),
        EntityKind::SphericalSurface => e matches StepEntity::SphericalSurface(x) && x.id == m.id && x.name@ == string_param(ps, 0) && x.position as nat == ref_param_or(ps, 1, 0) && x.radius.model() == real_param_or(ps, 2, RealModel::Literal(seq!['1'])),
        EntityKind::ToroidalSurface => e matches StepEntity::ToroidalSurface(x) && x.id == m.id && x.name@ == string_param(ps, 0) && x.position as nat == ref_param_or(ps, 1, 0) && x.major_radius.model() == real_param_or(ps, 2, RealModel::Literal(seq!['1'])) && x.minor_radius.model() == real_param_or(ps, 3, RealModel::Literal(seq!['0', '.', '5'])),
        EntityKind::BSplineSurface => e matches StepEntity::BSplineSurface(x) && x.id == m.id && x.name@ == string_param(ps, 0) && x.u_degree.model() == real_param_or(ps, 1, RealModel::Literal(seq!['3'])) && x.v_degree.model() == real_param_or(ps, 2, RealModel::Literal(seq!['3'])) && grids(x.control_points@) == grid_param(ps, 3) && x.surface_form@ == string_param(ps, 4) && x.u_closed == bool_param_or(ps, 5, false) && x.v_closed == bool_param_or(ps, 6, false) && x.self_intersect == bool_param_or(ps, 7, false) && real_models(x.u_multiplicities@) == reals_param(ps, 8) && real_models(x.v_multiplicities@) == reals_param(ps, 9) && real_models(x.u_knots@) == reals_param(ps, 10) && real_models(x.v_knots@) == reals_param(ps, 11),
        EntityKind::VertexPoint => e matches StepEntity::VertexPoint(x) && x.id == m.id && x.name@ == string_param(ps, 0) && x.point as nat == ref_param_or(ps, 1, 0),
        EntityKind::EdgeCurve => e matches StepEntity::EdgeCurve(x) && x.id == m.id && x.name@ == string_param(ps, 0) && x.start_vertex as nat == ref_param_or(ps, 1, 0) && x.end_vertex as nat == ref_param_or(ps, 2, 0) && x.curve as nat == ref_param_or(ps, 3, 0) && x.same_sense == bool_param_or(ps, 4, true),
        EntityKind::OrientedEdge => e matches StepEntity::OrientedEdge(x) && x.id == m.id && x.name@ == string_param(ps, 0) && x.edge as nat == ref_param_or(ps, 3, 0) && x.orientation == bool_param_or(ps, 4, true),
        EntityKind::EdgeLoop => e matches StepEntity::EdgeLoop(x) && x.id == m.id && x.name@ == string_param(ps, 0) && u64s(x.edges@) == refs_param(ps, 1),
        EntityKind::FaceBound => e matches StepEntity::FaceBound(x) && x.id == m.id && x.name@ == string_param(ps, 0) && x.bound as nat == ref_param_or(ps, 1, 0) && x.orientation == bool_param_or(ps, 2, true),
        EntityKind::FaceOuterBound => e matches StepEntity::FaceOuterBound(x) && x.id == m.id && x.name@ == string_param(ps, 0) && x.bound as nat == ref_param_or(ps, 1, 0) && x.orientation == bool_param_or(ps, 2, true),
        EntityKind::AdvancedFace => e matches StepEntity::AdvancedFace(x) && x.id == m.id && x.name@ == string_param(ps, 0) && u64s(x.bounds@) == refs_param(ps, 1) && x.surface as nat == ref_param_or(ps, 2, 0) && x.same_sense == bool_param_or(ps, 3, true),
        EntityKind::ClosedShell => e matches StepEntity::ClosedShell(x) && x.id == m.id && x.name@ == string_param(ps, 0) && u64s(x.faces@) == refs_param(ps, 1),
        EntityKind::OpenShell => e matches StepEntity::OpenShell(x) && x.id == m.id && x.name@ == string_param(ps, 0) && u64s(x.faces@) == refs_param(ps, 1),
        EntityKind::ManifoldSolidBrep => e matches StepEntity::ManifoldSolidBrep(x) && x.id == m.id && x.name@ == string_param(ps, 0) && x.outer as nat == ref_param_or(ps, 1, 0),
        EntityKind::FacetedBrep => e matches StepEntity::FacetedBrep(x) && x.id == m.id && x.name@ == string_param(ps, 0) && x.outer as nat == ref_param_or(ps, 1, 0),
        EntityKind::ShellBasedSurfaceModel => e matches StepEntity::ShellBasedSurfaceModel(x) && x.id == m.id && x.name@ == string_param(ps, 0) && u64s(x.shells@) == refs_param(ps, 1),
        EntityKind::ShapeRepresentation => e matches StepEntity::ShapeRepresentation(x) && x.id == m.id && x.name@ == string_param(ps, 0) && u64s(x.items@) == refs_param(ps, 1) && x.context as nat == ref_param_or(ps, 2, 0),
        EntityKind::WireframeShapeRepresentation => e matches StepEntity::ShapeRepresentation(x) && x.id == m.id && x.name@ == string_param(ps, 0) && u64s(x.items@) == refs_param(ps, 1) && x.context as nat == ref_param_or(ps, 2, 0),
        EntityKind::AdvancedBrepShapeRepresentation => e matches StepEntity::AdvancedBrepShapeRepresentation(x) && x.id == m.id && x.name@ == string_param(ps, 0) && u64s(x.items@) == refs_param(ps, 1) && x.context as nat == ref_param_or(ps, 2, 0),
        EntityKind::GeometricallyBoundedSurfaceShapeRepresentation => e matches StepEntity::GeometricallyBoundedSurfaceShapeRepresentation(x) && x.id == m.id && x.name@ == string_param(ps, 0) && u64s(x.items@) == refs_param(ps, 1) && x.context as nat == ref_param_or(ps, 2, 0),
        EntityKind::FacetedBrepShapeRepresentation => e matches StepEntity::FacetedBrepShapeRepresentation(x) && x.id == m.id && x.name@ == string_param(ps, 0) && u64s(x.items@) == refs_param(ps, 1) && x.context as nat == ref_param_or(ps, 2, 0),
        EntityKind::Product => e matches StepEntity::Product(x) && x.id == m.id && x.product_id@ == string_param(ps, 0) && x.name@ == string_param(ps, 1) && x.description@ == string_param(ps, 2),
        EntityKind::ProductDefinition => e matches StepEntity::ProductDefinition(x) && x.id == m.id && x.name@ == string_param(ps, 0) && x.description@ == string_param(ps, 1) && x.formation as nat == ref_param_or(ps, 2, 0),
        EntityKind::ProductDefinitionShape => e matches StepEntity::ProductDefinitionShape(x) && x.id == m.id && x.name@ == string_param(ps, 0) && x.description@ == string_param(ps, 1) && x.definition as nat == ref_param_or(ps, 2, 0),
        EntityKind::ShapeDefinitionRepresentation => e matches StepEntity::ShapeDefinitionRepresentation(x) && x.id == m.id && x.definition as nat == ref_param_or(ps, 0, 0) && x.used_representation as nat == ref_param_or(ps, 1, 0),
        EntityKind::NextAssemblyUsageOccurrence => e matches StepEntity::NextAssemblyUsageOccurrence(x) && x.id == m.id && x.nauo_id@ == string_param(ps, 0) && x.name@ == string_param(ps, 1) && x.relating_product as nat == ref_param_or(ps, 3, 0) && x.related_product as nat == ref_param_or(ps, 4, 0),
        EntityKind::ItemDefinedTransformation => e matches StepEntity::ItemDefinedTransformation(x) && x.id == m.id && x.name@ == string_param(ps, 0) && x.transform_item_1 as nat == ref_param_or(ps, 2, 0) && x.transform_item_2 as nat == ref_param_or(ps, 3, 0),
        EntityKind::ContextDependentShapeRepresentation => e matches StepEntity::ContextDependentShapeRepresentation(x) && x.id == m.id && x.representation_relation as nat == ref_param_or(ps, 0, 0) && x.represented_product_relation as nat == ref_param_or(ps, 1, 0),
        EntityKind::RepresentationRelationship => if ref_param_or(ps, 4, 0) != 0 {
            e matches StepEntity::RepresentationRelationshipWithTransformation(x) && x.id == m.id
                && x.name@ == string_param(ps, 0) && x.rep1 as nat == ref_param_or(ps, 2, 0)
                && x.rep2 as nat == ref_param_or(ps, 3, 0) && x.transformation_operator as nat
                == ref_param_or(ps, 4, 0)
        } else {
            e matches StepEntity::Unknown { type_label, id } && type_label@
                == "REPRESENTATION_RELATIONSHIP"@ && id == m.id
        },
        EntityKind::Other => e matches StepEntity::Unknown { type_label, id } && type_label@
            == m.type_label && id == m.id,
    }
}

/// Convert a raw entity instance to a typed entity.
pub fn convert_entity(instance: &EntityInstance) -> (r: StepEntity)
    ensures
        converted(r, instance.model()),
{
    let ps = &instance.params;
    let id = instance.id;
    let t = crate::text::chars_of(instance.type_label.as_str());
    proof {
        lemma_models_of(ps@);
    }
    let lit_zero: [char; 1] = ['0'];
    let lit_one: [char; 1] = ['1'];
    let lit_three: [char; 1] = ['3'];
    let lit_half: [char; 3] = ['0', '.', '5'];
    proof {
        assert(lit_zero@ =~= seq!['0']);
        assert(lit_one@ =~= seq!['1']);
        assert(lit_three@ =~= seq!['3']);
        assert(lit_half@ =~= seq!['0', '.', '5']);
    }
    match classify(&t) {
        EntityKind::CartesianPoint => StepEntity::CartesianPoint(CartesianPoint {
            id,
            name: param_string(ps, 0),
            coords: param_coords_or(ps, 1, &lit_zero, &lit_zero, &lit_zero),
        }),
        EntityKind::Direction => StepEntity::Direction(Direction {
            id,
            name: param_string(ps, 0),
            ratios: param_coords_or(ps, 1, &lit_zero, &lit_zero, &lit_one),
        }),
        EntityKind::Vector => StepEntity::Vector(Vector {
            id,
            name: param_string(ps, 0),
            orientation: param_ref_or(ps, 1, 0),
            magnitude: param_real_or(ps, 2, &lit_one),
        }),
        EntityKind::Axis1Placement => StepEntity::Axis1Placement(Axis1Placement {
            id,
            name: param_string(ps, 0),
            location: param_ref_or(ps, 1, 0),
            axis: param_ref(ps, 2),
        }),
        EntityKind::Axis2Placement3D => StepEntity::Axis2Placement3D(Axis2Placement3D {
            id,
            name: param_string(ps, 0),
            location: param_ref_or(ps, 1, 0),
            axis: param_ref(ps, 2),
            ref_direction: param_ref(ps, 3),
        }),
        EntityKind::Line => StepEntity::Line(Line {
            id,
            name: param_string(ps, 0),
            point: param_ref_or(ps, 1, 0),
            direction: param_ref_or(ps, 2, 0),
        }),
        EntityKind::Circle => StepEntity::Circle(Circle {
            id,
            name: param_string(ps, 0),
            position: param_ref_or(ps, 1, 0),
            radius: param_real_or(ps, 2, &lit_one),
        }),
        EntityKind::Ellipse => StepEntity::Ellipse(Ellipse {
            id,
            name: param_string(ps, 0),
            position: param_ref_or(ps, 1, 0),
            semi_axis_1: param_real_or(ps, 2, &lit_one),
            semi_axis_2: param_real_or(ps, 3, &lit_one),
        }),
        EntityKind::Plane => StepEntity::Plane(Plane {
            id,
            name: param_string(ps, 0),
            position: param_ref_or(ps, 1, 0),
        }),
        EntityKind::CylindricalSurface => StepEntity::CylindricalSurface(CylindricalSurface {
            id,
            name: param_string(ps, 0),
            position: param_ref_or(ps, 1, 0),
            radius: param_real_or(ps, 2, &lit_one),
        }),
        EntityKind::ConicalSurface => StepEntity::ConicalSurface(ConicalSurface {
            id,
            name: param_string(ps, 0),
            position: param_ref_or(ps, 1, 0),
            radius: param_real_or(ps, 2, &lit_one),
            semi_angle: param_real_or(ps, 3, &lit_zero),
        }),
        EntityKind::SphericalSurface => StepEntity::SphericalSurface(SphericalSurface {
            id,
            name: param_string(ps, 0),
            position: param_ref_or(ps, 1, 0),
            radius: param_real_or(ps, 2, &lit_one),
        }),
        EntityKind::ToroidalSurface => StepEntity::ToroidalSurface(ToroidalSurface {
            id,
            name: param_string(ps, 0),
            position: param_ref_or(ps, 1, 0),
            major_radius: param_real_or(ps, 2, &lit_one),
            minor_radius: param_real_or(ps, 3, &lit_half),
        }),
        EntityKind::BSplineSurface => StepEntity::BSplineSurface(BSplineSurface {
            id,
            name: param_string(ps, 0),
            u_degree: param_real_or(ps, 1, &lit_three),
            v_degree: param_real_or(ps, 2, &lit_three),
            control_points: param_grid(ps, 3),
            surface_form: param_string(ps, 4),
            u_closed: param_bool_or(ps, 5, false),
            v_closed: param_bool_or(ps, 6, false),
            self_intersect: param_bool_or(ps, 7, false),
            u_multiplicities: param_reals(ps, 8),
            v_multiplicities: param_reals(ps, 9),
            u_knots: param_reals(ps, 10),
            v_knots: param_reals(ps, 11),
        }),
        EntityKind::VertexPoint => StepEntity::VertexPoint(VertexPoint {
            id,
            name: param_string(ps, 0),
            point: param_ref_or(ps, 1, 0),
        }),
        EntityKind::EdgeCurve => StepEntity::EdgeCurve(EdgeCurve {
            id,
            name: param_string(ps, 0),
            start_vertex: param_ref_or(ps, 1, 0),
            end_vertex: param_ref_or(ps, 2, 0),
            curve: param_ref_or(ps, 3, 0),
            same_sense: param_bool_or(ps, 4, true),
        }),
        EntityKind::OrientedEdge => StepEntity::OrientedEdge(OrientedEdge {
            id,
            name: param_string(ps, 0),
            edge: param_ref_or(ps, 3, 0),
            orientation: param_bool_or(ps, 4, true),
        }),
        EntityKind::EdgeLoop => StepEntity::EdgeLoop(EdgeLoop {
            id,
            name: param_string(ps, 0),
            edges: param_refs(ps, 1),
        }),
        EntityKind::FaceBound => StepEntity::FaceBound(FaceBound {
            id,
            name: param_string(ps, 0),
            bound: param_ref_or(ps, 1, 0),
            orientation: param_bool_or(ps, 2, true),
        }),
        EntityKind::FaceOuterBound => StepEntity::FaceOuterBound(FaceOuterBound {
            id,
            name: param_string(ps, 0),
            bound: param_ref_or(ps, 1, 0),
            orientation: param_bool_or(ps, 2, true),
        }),
        EntityKind::AdvancedFace => StepEntity::AdvancedFace(AdvancedFace {
            id,
            name: param_string(ps, 0),
            bounds: param_refs(ps, 1),
            surface: param_ref_or(ps, 2, 0),
            same_sense: param_bool_or(ps, 3, true),
        }),
        EntityKind::ClosedShell => StepEntity::ClosedShell(ClosedShell {
            id,
            name: param_string(ps, 0),
            faces: param_refs(ps, 1),
        }),
        EntityKind::OpenShell => StepEntity::OpenShell(OpenShell {
            id,
            name: param_string(ps, 0),
            faces: param_refs(ps, 1),
        }),
        EntityKind::ManifoldSolidBrep => StepEntity::ManifoldSolidBrep(ManifoldSolidBrep {
            id,
            name: param_string(ps, 0),
            outer: param_ref_or(ps, 1, 0),
        }),
        EntityKind::FacetedBrep => StepEntity::FacetedBrep(FacetedBrep {
            id,
            name: param_string(ps, 0),
            outer: param_ref_or(ps, 1, 0),
        }),
        EntityKind::ShellBasedSurfaceModel => StepEntity::ShellBasedSurfaceModel(ShellBasedSurfaceModel {
            id,
            name: param_string(ps, 0),
            shells: param_refs(ps, 1),
        }),
        EntityKind::ShapeRepresentation => StepEntity::ShapeRepresentation(ShapeRepresentation {
            id,
            name: param_string(ps, 0),
            items: param_refs(ps, 1),
            context: param_ref_or(ps, 2, 0),
        }),
        EntityKind::WireframeShapeRepresentation => StepEntity::ShapeRepresentation(ShapeRepresentation {
            id,
            name: param_string(ps, 0),
            items: param_refs(ps, 1),
            context: param_ref_or(ps, 2, 0),
        }),
        EntityKind::AdvancedBrepShapeRepresentation => StepEntity::AdvancedBrepShapeRepresentation(AdvancedBrepShapeRepresentation {
            id,
            name: param_string(ps, 0),
            items: param_refs(ps, 1),
            context: param_ref_or(ps, 2, 0),
        }),
        EntityKind::GeometricallyBoundedSurfaceShapeRepresentation => StepEntity::GeometricallyBoundedSurfaceShapeRepresentation(ShapeRepresentation {
            id,
            name: param_string(ps, 0),
            items: param_refs(ps, 1),
            context: param_ref_or(ps, 2, 0),
        }),
        EntityKind::FacetedBrepShapeRepresentation => StepEntity::FacetedBrepShapeRepresentation(ShapeRepresentation {
            id,
            name: param_string(ps, 0),
            items: param_refs(ps, 1),
            context: param_ref_or(ps, 2, 0),
        }),
        EntityKind::Product => StepEntity::Product(Product {
            id,
            product_id: param_string(ps, 0),
            name: param_string(ps, 1),
            description: param_string(ps, 2),
        }),
        EntityKind::ProductDefinition => StepEntity::ProductDefinition(ProductDefinition {
            id,
            name: param_string(ps, 0),
            description: param_string(ps, 1),
            formation: param_ref_or(ps, 2, 0),
        }),
        EntityKind::ProductDefinitionShape => StepEntity::ProductDefinitionShape(ProductDefinitionShape {
            id,
            name: param_string(ps, 0),
            description: param_string(ps, 1),
            definition: param_ref_or(ps, 2, 0),
        }),
        EntityKind::ShapeDefinitionRepresentation => StepEntity::ShapeDefinitionRepresentation(ShapeDefinitionRepresentation {
            id,
            definition: param_ref_or(ps, 0, 0),
            used_representation: param_ref_or(ps, 1, 0),
        }),
        EntityKind::NextAssemblyUsageOccurrence => StepEntity::NextAssemblyUsageOccurrence(NextAssemblyUsageOccurrence {
            id,
            nauo_id: param_string(ps, 0),
            name: param_string(ps, 1),
            relating_product: param_ref_or(ps, 3, 0),
            related_product: param_ref_or(ps, 4, 0),
        }),
        EntityKind::ItemDefinedTransformation => StepEntity::ItemDefinedTransformation(ItemDefinedTransformation {
            id,
            name: param_string(ps, 0),
            transform_item_1: param_ref_or(ps, 2, 0),
            transform_item_2: param_ref_or(ps, 3, 0),
        }),
        EntityKind::ContextDependentShapeRepresentation => StepEntity::ContextDependentShapeRepresentation(ContextDependentShapeRepresentation {
            id,
            representation_relation: param_ref_or(ps, 0, 0),
            represented_product_relation: param_ref_or(ps, 1, 0),
        }),
        EntityKind::RepresentationRelationship => {
            let transform_op = param_ref_or(ps, 4, 0);
            if transform_op != 0 {
                StepEntity::RepresentationRelationshipWithTransformation(
                    RepresentationRelationshipWithTransformation {
                        id,
                        name: param_string(ps, 0),
                        rep1: param_ref_or(ps, 2, 0),
                        rep2: param_ref_or(ps, 3, 0),
                        transformation_operator: transform_op,
                    },
                )
            } else {
                let label = crate::text::chars_of("REPRESENTATION_RELATIONSHIP");
                StepEntity::Unknown { type_label: string_from_chars(&label), id }
            }
        },
        EntityKind::Other => StepEntity::Unknown { type_label: instance.type_label.clone(), id },
    }
}

} // verus!
