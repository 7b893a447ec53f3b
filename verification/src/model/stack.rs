//! The geometry of a stack: which medium lies where.

use vstd::prelude::*;
use crate::model::units::{mm_tenths_to_microns, sat_add, sat_mul, Microns, RI_AIR};
use crate::paramset::{lemma_first_absent_is, Design, ParamSet};

verus! {

/// A stack as the rays meet it: partition, layer, partition, layer and so on
/// from the top down, one pair for each active layer of the design. The
/// stack ends under its last layer: no partition below it is modelled.
#[derive(Debug)]
pub struct Stack {
    /// Thickness of each partition.
    pub part_um: Microns,
    /// Thickness of each layer.
    pub layer_um: Microns,
    /// Refractive-index codes of the layers, top first.
    pub layers: Vec<u8>,
    /// Height of the whole stack.
    pub height: Microns,
}

/// The mathematical content of a [`Stack`].
pub struct Layout {
    /// Thickness of each partition.
    pub part_um: Microns,
    /// Thickness of each layer.
    pub layer_um: Microns,
    /// Refractive-index codes of the layers, top first.
    pub layers: Seq<u8>,
    /// Height of the whole stack.
    pub height: Microns,
}

impl View for Stack {
    type V = Layout;

    open spec fn view(&self) -> Layout {
        Layout {
            part_um: self.part_um,
            layer_um: self.layer_um,
            layers: self.layers@,
            height: self.height,
        }
    }
}

/// The stack of a design, with layers of the given base thickness: a
/// partition is as thick as the design says, a layer that much thicker than
/// the base, and the height is that of one such pair for each active layer.
/// A sum or product too large for the machine stays at the largest length
/// there is.
pub open spec fn layout_of(design: Design, layer_base: Microns) -> Layout {
    let part_um = (design.partitions_thickness * 100) as Microns;
    let layer_um = sat_add(design.layers_thickness * 100, layer_base as int) as Microns;
    Layout {
        part_um,
        layer_um,
        layers: design.codes(),
        height: sat_mul(design.len(), sat_add(part_um as int, layer_um as int)) as Microns,
    }
}

/// Where in or over a stack a ray is.
#[derive(Clone, Copy, Debug, PartialEq, Eq, Structural)]
pub enum Place {
    /// In the air over the stack.
    Above,
    /// In the partition over the layer of the given index.
    Partition(usize),
    /// In the layer of the given index.
    Layer(usize),
}

impl Layout {
    /// Whether the stack has the place.
    pub open spec fn holds(self, place: Place) -> bool {
        match place {
            Place::Above => true,
            Place::Partition(k) => k < self.layers.len(),
            Place::Layer(k) => k < self.layers.len(),
        }
    }

    /// Refractive-index code of what fills a place: air above the stack,
    /// acrylic in a partition, the layer's own code in a layer.
    pub open spec fn medium(self, place: Place) -> u8 {
        match place {
            Place::Above => RI_AIR,
            Place::Partition(_) => ParamSet::MAXIMUM_RI,
            Place::Layer(k) => self.layers[k as int],
        }
    }

    /// Thickness of a place; the air has none.
    pub open spec fn thickness(self, place: Place) -> Microns {
        match place {
            Place::Above => 0,
            Place::Partition(_) => self.part_um,
            Place::Layer(_) => self.layer_um,
        }
    }

    /// The place next to `place` on the side a ray is heading for, or `None`
    /// where the ray leaves the stack on that side.
    pub open spec fn ahead(self, place: Place, going_down: bool) -> Option<Place> {
        match place {
            Place::Above => if going_down && self.layers.len() > 0 {
                Some(Place::Partition(0))
            } else {
                None
            },
            Place::Partition(k) => if going_down {
                Some(Place::Layer(k))
            } else if k == 0 {
                None
            } else {
                Some(Place::Layer((k - 1) as usize))
            },
            Place::Layer(k) => if !going_down {
                Some(Place::Partition(k))
            } else if k + 1 < self.layers.len() {
                Some(Place::Partition((k + 1) as usize))
            } else {
                None
            },
        }
    }
}

impl Layout {
    /// The stack is as high as its pairs of partition and layer, each of
    /// them thicker than nothing: no size was held at the largest length.
    /// Its layers can be counted.
    pub open spec fn exact(self) -> bool {
        &&& self.layers.len() <= usize::MAX
        &&& self.part_um > 0
        &&& self.layer_um > 0
        &&& self.height == self.layers.len() * (self.part_um + self.layer_um)
    }

    /// Height of the boundary over a place.
    pub open spec fn top_of(self, place: Place) -> int {
        match place {
            Place::Above => self.height as int,
            Place::Partition(k) => self.height - k * (self.part_um + self.layer_um),
            Place::Layer(k) => self.height - k * (self.part_um + self.layer_um) - self.part_um,
        }
    }

    /// Height of the boundary under a place.
    pub open spec fn bottom_of(self, place: Place) -> int {
        self.top_of(place) - self.thickness(place)
    }

    /// In an exact stack every place lies within the height: its upper
    /// boundary at the top of the stack only for the air and the first
    /// partition, its lower boundary at height zero only for the last layer.
    /// The boundary between a place and the place ahead is the one they
    /// share.
    pub proof fn lemma_places(self, place: Place)
        requires
            self.exact(),
            self.holds(place),
        ensures
            self.height == 0 <==> self.layers.len() == 0,
            0 <= self.bottom_of(place) <= self.top_of(place) <= self.height,
            place !is Above ==> self.bottom_of(place) < self.top_of(place),
            self.top_of(place) == self.height <==> self.ahead(place, false) is None,
            self.bottom_of(place) == 0 <==> (place is Above && self.height == 0) || (place !is Above
                && self.ahead(place, true) is None),
            self.ahead(place, true) matches Some(below) ==> self.top_of(below) == self.bottom_of(
                place,
            ),
            self.ahead(place, false) matches Some(above) ==> self.bottom_of(above) == self.top_of(
                place,
            ),
    {
        let pair = self.part_um + self.layer_um;
        let n = self.layers.len() as int;
        assert(n > 0 ==> n * pair > 0) by (nonlinear_arith)
            requires
                pair > 0,
        ;
        assert(n == 0 ==> n * pair == 0) by (nonlinear_arith);
        match place {
            Place::Above => {
                assert(n * pair >= 0) by (nonlinear_arith)
                    requires
                        n >= 0,
                        pair >= 0,
                ;
                assert(0 * pair == 0) by (nonlinear_arith);
                assert(self.top_of(Place::Partition(0)) == self.height - 0 * pair);
                assert(n > 0 ==> n * pair > 0) by (nonlinear_arith)
                    requires
                        pair > 0,
                ;
            },
            Place::Partition(k) => {
                let k = k as int;
                assert(n * pair - k * pair == (n - k) * pair) by (nonlinear_arith);
                assert((n - k) * pair >= pair) by (nonlinear_arith)
                    requires
                        n - k >= 1,
                        pair > 0,
                ;
                assert(k > 0 ==> k * pair > 0) by (nonlinear_arith)
                    requires
                        k >= 0,
                        pair > 0,
                ;
                assert(k == 0 ==> k * pair == 0) by (nonlinear_arith);
                assert((k - 1) * pair == k * pair - pair) by (nonlinear_arith);
                if k > 0 {
                    let above = Place::Layer((k - 1) as usize);
                    assert(self.top_of(above) == self.height - (k - 1) * pair - self.part_um);
                }
            },
            Place::Layer(k) => {
                let k = k as int;
                assert(n * pair - k * pair == (n - k) * pair) by (nonlinear_arith);
                assert((n - k) * pair >= pair) by (nonlinear_arith)
                    requires
                        n - k >= 1,
                        pair > 0,
                ;
                assert(n - k > 1 ==> (n - k) * pair >= 2 * pair) by (nonlinear_arith)
                    requires
                        pair > 0,
                ;
                assert(n - k == 1 ==> (n - k) * pair == pair) by (nonlinear_arith);
                assert(k * pair >= 0) by (nonlinear_arith)
                    requires
                        k >= 0,
                        pair > 0,
                ;
                assert((k + 1) * pair == k * pair + pair) by (nonlinear_arith);
                if k + 1 < n {
                    let below = Place::Partition((k + 1) as usize);
                    assert(self.top_of(below) == self.height - (k + 1) * pair);
                }
            },
        }
    }
}

/// The stack of a well-formed design is exact as long as its layers have a
/// base thickness, and one that is not beyond measure.
pub proof fn lemma_layout_exact(design: Design, layer_base: Microns)
    requires
        design.wf(),
        0 < layer_base <= 1_000_000_000_000_000,
    ensures
        layout_of(design, layer_base).exact(),
{
    let stack = layout_of(design, layer_base);
    design.lemma_len();
    assert(design.partitions_thickness >= 2);
    let pair = stack.part_um + stack.layer_um;
    let n = design.len();
    assert(n * pair <= 10 * pair) by (nonlinear_arith)
        requires
            0 <= n <= 10,
            pair >= 0,
    ;
}

impl Stack {
    /// Works out the stack of a design.
    pub fn new(params: ParamSet, layer_base: Microns) -> (stack: Stack)
        ensures
            stack@ == layout_of(params@, layer_base),
            stack@.layers.len() <= 10,
    {
        let part_um: Microns = mm_tenths_to_microns(params.partitions_thickness);
        let layer_um: Microns = mm_tenths_to_microns(params.layers_thickness).saturating_add(
            layer_base,
        );
        let count: usize = params.len();
        let mut layers: Vec<u8> = Vec::new();
        let mut i: usize = 0;
        proof {
            lemma_first_absent_is(params@.layers, 0);
        }
        while i < count
            invariant
                i <= count,
                count == params@.len(),
                count <= 10,
                forall|j: int| 0 <= j < count ==> (#[trigger] params@.layers[j]) is Some,
                layers@.len() == i,
                forall|j: int| 0 <= j < i ==> #[trigger] layers@[j] == params@.raw_code(j),
            decreases count - i,
        {
            match params.layers[i] {
                Some(code) => {
                    layers.push(code);
                },
                None => {},
            }
            i += 1;
        }
        let pair: Microns = part_um.saturating_add(layer_um);
        let height: Microns = match (count as Microns).checked_mul(pair) {
            Some(h) => h,
            None => Microns::MAX,
        };
        assert(layers@ =~= params@.codes());
        Stack { part_um, layer_um, layers, height }
    }

    /// Computes `ahead`.
    pub fn next_place(&self, place: Place, going_down: bool) -> (next: Option<Place>)
        requires
            self@.holds(place),
        ensures
            next == self@.ahead(place, going_down),
            next matches Some(p) ==> self@.holds(p),
    {
        match place {
            Place::Above => if going_down && self.layers.len() > 0 {
                Some(Place::Partition(0))
            } else {
                None
            },
            Place::Partition(k) => if going_down {
                Some(Place::Layer(k))
            } else if k == 0 {
                None
            } else {
                Some(Place::Layer(k - 1))
            },
            Place::Layer(k) => if !going_down {
                Some(Place::Partition(k))
            } else if k < self.layers.len() - 1 {
                Some(Place::Partition(k + 1))
            } else {
                None
            },
        }
    }

    /// Computes `medium`.
    pub fn medium_of(&self, place: Place) -> (ri: u8)
        requires
            self@.holds(place),
        ensures
            ri == self@.medium(place),
    {
        match place {
            Place::Above => RI_AIR,
            Place::Partition(_) => ParamSet::MAXIMUM_RI,
            Place::Layer(k) => self.layers[k],
        }
    }

    /// Computes `thickness`.
    pub fn thickness_of(&self, place: Place) -> (um: Microns)
        ensures
            um == self@.thickness(place),
    {
        match place {
            Place::Above => 0,
            Place::Partition(_) => self.part_um,
            Place::Layer(_) => self.layer_um,
        }
    }
}

} // verus!
