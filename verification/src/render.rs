//! The renderer's verified half: a frame is a pure function of the array,
//! one bar per element in index order. Turning a bar into rectangle
//! geometry and a hue is fixed-ratio scaling left to the drawing layer:
//! width `1 / len` of the viewport, height and vertical position
//! proportional to `value / len`, hue proportional to `(value - 1) / len`.

use vstd::prelude::*;

use crate::engine::Engine;

verus! {

/// One bar of a frame: the value found at one index of the array.
#[derive(Clone, Copy, PartialEq, Eq, Structural, Debug)]
pub struct Bar {
    pub index: usize,
    pub value: i32,
}

/// Reads the whole array into bars, recomputed from scratch each frame:
/// bar `k` carries exactly index `k` and the value stored there.
pub fn frame_bars(engine: &Engine) -> (bars: Vec<Bar>)
    ensures
        bars@.len() == engine.size(),
        forall|k: int|
            0 <= k < engine.size() ==> bars@[k] == (Bar {
                index: k as usize,
                value: engine.values@[k],
            }),
{
    let mut bars: Vec<Bar> = Vec::new();
    let mut i: usize = 0;
    while i < engine.values.len()
        invariant
            i <= engine.size(),
            bars@.len() == i,
            forall|k: int|
                0 <= k < i ==> bars@[k] == (Bar { index: k as usize, value: engine.values@[k] }),
        decreases engine.size() - i,
    {
        bars.push(Bar { index: i, value: engine.values[i] });
        i = i + 1;
    }
    bars
}

} // verus!

