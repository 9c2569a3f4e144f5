//! Channel truncation: zero one RGB channel over the whole buffer.

use vstd::prelude::*;
use vstd::string::StringExecFns;

use crate::buffer::{BufView, Pixel, PixelBuffer};
use crate::process::{FilterProcessor, FilterProcessorOptions};

verus! {

/// The RGB channel a [`TruncateColorFilter`] zeroes.
#[derive(Debug, Clone, Copy, PartialEq, Eq, Structural)]
pub enum TruncateComponent {
    R,
    G,
    B,
}

/// The channel's name, as the selection menu shows it.
pub open spec fn component_name(c: TruncateComponent) -> Seq<char> {
    match c {
        TruncateComponent::R => "Red"@,
        TruncateComponent::G => "Green"@,
        TruncateComponent::B => "Blue"@,
    }
}

impl TruncateComponent {
    /// The channel's name.
    pub fn name(&self) -> (r: String)
        ensures
            r@ == component_name(*self),
    {
        match self {
            TruncateComponent::R => "Red".to_owned(),
            TruncateComponent::G => "Green".to_owned(),
            TruncateComponent::B => "Blue".to_owned(),
        }
    }

    /// All channels, in the order red, green, blue.
    pub fn vec() -> (r: Vec<TruncateComponent>)
        ensures
            r@ =~= seq![TruncateComponent::R, TruncateComponent::G, TruncateComponent::B],
    {
        let mut v: Vec<TruncateComponent> = Vec::new();
        v.push(TruncateComponent::R);
        v.push(TruncateComponent::G);
        v.push(TruncateComponent::B);
        v
    }
}

/// `p` with the chosen channel set to zero and the other two untouched.
pub open spec fn trunc_pix(p: Pixel, c: TruncateComponent) -> Pixel {
    match c {
        TruncateComponent::R => Pixel { r: 0, g: p.g, b: p.b },
        TruncateComponent::G => Pixel { r: p.r, g: 0, b: p.b },
        TruncateComponent::B => Pixel { r: p.r, g: p.g, b: 0 },
    }
}

/// The whole-buffer meaning of channel truncation.
pub open spec fn truncate_apply(c: TruncateComponent, v: BufView) -> BufView {
    BufView { width: v.width, height: v.height, pixels: v.pixels.map_values(|p: Pixel| trunc_pix(p, c)) }
}

/// Zeroing a channel twice is the same as zeroing it once.
pub proof fn lemma_truncate_idempotent(c: TruncateComponent, v: BufView)
    ensures
        truncate_apply(c, truncate_apply(c, v)) == truncate_apply(c, v),
{
    let once = truncate_apply(c, v);
    assert(truncate_apply(c, once).pixels =~= once.pixels);
    assert(truncate_apply(c, once) =~= once);
}

/// Configuration of [`TruncateColorFilter`]: which channel to zero.
#[derive(Debug, Clone, Copy, PartialEq, Eq, Structural)]
pub struct TruncateColorFilterOption {
    pub component: TruncateComponent,
}

impl TruncateColorFilterOption {
    pub fn new(component: TruncateComponent) -> (r: TruncateColorFilterOption)
        ensures
            r.component == component,
    {
        TruncateColorFilterOption { component }
    }
}

impl Default for TruncateColorFilterOption {
    /// The red channel is zeroed when nothing is chosen.
    fn default() -> (r: TruncateColorFilterOption)
        ensures
            r.component == TruncateComponent::R,
    {
        TruncateColorFilterOption { component: TruncateComponent::R }
    }
}

impl FilterProcessorOptions for TruncateColorFilterOption {

}

/// The filter that zeroes one RGB channel of every pixel.
#[derive(Debug, Clone, Copy, PartialEq, Eq, Structural)]
pub struct TruncateColorFilter {
    pub option: TruncateColorFilterOption,
}

impl TruncateColorFilter {
    pub fn new(option: TruncateColorFilterOption) -> (r: TruncateColorFilter)
        ensures
            r.option == option,
    {
        TruncateColorFilter { option }
    }
}

impl FilterProcessor for TruncateColorFilter {
    type OptionsType = TruncateColorFilterOption;

    open spec fn wf(&self) -> bool {
        true
    }

    open spec fn apply(&self, v: BufView) -> BufView {
        truncate_apply(self.option.component, v)
    }

    proof fn apply_dims(&self, v: BufView) {
    }

    fn process(&self, buf: &PixelBuffer) -> (r: PixelBuffer) {
        let c = self.option.component;
        let mut data: Vec<Pixel> = Vec::new();
        let mut k: usize = 0;
        while k < buf.data.len()
            invariant
                k <= buf.data@.len(),
                data@.len() == k,
                forall|i: int| 0 <= i < k ==> data@[i] == trunc_pix(buf.data@[i], c),
            decreases buf.data@.len() - k,
        {
            let p = buf.data[k];
            let q = match c {
                TruncateComponent::R => Pixel { r: 0, g: p.g, b: p.b },
                TruncateComponent::G => Pixel { r: p.r, g: 0, b: p.b },
                TruncateComponent::B => Pixel { r: p.r, g: p.g, b: 0 },
            };
            data.push(q);
            k = k + 1;
        }
        let r = PixelBuffer { width: buf.width, height: buf.height, data };
        proof {
            assert(r@.pixels =~= truncate_apply(c, buf@).pixels);
            assert(r@ =~= self.apply(buf@));
        }
        r
    }

    fn get_option(&self) -> (r: TruncateColorFilterOption)
        ensures
            r == self.option,
    {
        self.option
    }

    open spec fn describe_view(&self) -> Seq<char> {
        "TruncateColor ("@ + component_name(self.option.component) + ")"@
    }

    fn describe(&self) -> (r: String) {
        let mut s = "TruncateColor (".to_owned();
        let name = self.option.component.name();
        s.append(name.as_str());
        s.append(")");
        s
    }
}

} // verus!
