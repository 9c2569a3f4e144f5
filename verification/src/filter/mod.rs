//! The closed set of filters and their variant dispatch.

use vstd::prelude::*;

use crate::buffer::{BufView, PixelBuffer};
use crate::process::{EmptyOption, FilterProcessor};

use self::gaussian::GaussianFilter;
use self::grayscale::GrayscaleFilter;
use self::kuwahara::KuwaharaFilter;
use self::mosaic::MosaicFilter;
use self::truncate_color::TruncateColorFilter;

pub mod gaussian;
pub mod grayscale;
pub mod kuwahara;
pub mod mosaic;
pub mod prelude;
pub mod truncate_color;

verus! {

/// The kinds of filter the pipeline can be configured with.
#[derive(Clone, Copy, Debug, PartialEq, Eq, Structural)]
pub enum AppFilterType {
    Gaussian,
    GrayScale,
    Kuwahara,
    Mosaic,
    Truncate,
}

impl AppFilterType {
    /// All filter kinds, in a fixed order for selection menus.
    pub fn create_vec() -> (r: Vec<AppFilterType>)
        ensures
            r@ =~= seq![
                AppFilterType::Gaussian,
                AppFilterType::GrayScale,
                AppFilterType::Kuwahara,
                AppFilterType::Mosaic,
                AppFilterType::Truncate,
            ],
    {
        let mut v: Vec<AppFilterType> = Vec::new();
        v.push(AppFilterType::Gaussian);
        v.push(AppFilterType::GrayScale);
        v.push(AppFilterType::Kuwahara);
        v.push(AppFilterType::Mosaic);
        v.push(AppFilterType::Truncate);
        v
    }
}

/// One configured filter of any kind; the pipeline holds a sequence of
/// these. Dispatch is a match over the variants.
#[derive(Debug, Clone)]
pub enum AppFilter {
    Gaussian(GaussianFilter),
    GrayScale(GrayscaleFilter),
    Kuwahara(KuwaharaFilter),
    Mosaic(MosaicFilter),
    Truncate(TruncateColorFilter),
}

impl FilterProcessor for AppFilter {
    type OptionsType = EmptyOption;

    open spec fn wf(&self) -> bool {
        match self {
            AppFilter::Gaussian(f) => f.wf(),
            AppFilter::GrayScale(f) => f.wf(),
            AppFilter::Kuwahara(f) => f.wf(),
            AppFilter::Mosaic(f) => f.wf(),
            AppFilter::Truncate(f) => f.wf(),
        }
    }

    open spec fn apply(&self, v: BufView) -> BufView {
        match self {
            AppFilter::Gaussian(f) => f.apply(v),
            AppFilter::GrayScale(f) => f.apply(v),
            AppFilter::Kuwahara(f) => f.apply(v),
            AppFilter::Mosaic(f) => f.apply(v),
            AppFilter::Truncate(f) => f.apply(v),
        }
    }

    proof fn apply_dims(&self, v: BufView) {
        match self {
            AppFilter::Gaussian(f) => f.apply_dims(v),
            AppFilter::GrayScale(f) => f.apply_dims(v),
            AppFilter::Kuwahara(f) => f.apply_dims(v),
            AppFilter::Mosaic(f) => f.apply_dims(v),
            AppFilter::Truncate(f) => f.apply_dims(v),
        }
    }

    fn process(&self, buf: &PixelBuffer) -> (r: PixelBuffer) {
        match self {
            AppFilter::Gaussian(f) => f.process(buf),
            AppFilter::GrayScale(f) => f.process(buf),
            AppFilter::Kuwahara(f) => f.process(buf),
            AppFilter::Mosaic(f) => f.process(buf),
            AppFilter::Truncate(f) => f.process(buf),
        }
    }

    fn get_option(&self) -> (r: EmptyOption)
        ensures
            r == EmptyOption,
    {
        EmptyOption
    }

    open spec fn describe_view(&self) -> Seq<char> {
        match self {
            AppFilter::Gaussian(f) => f.describe_view(),
            AppFilter::GrayScale(f) => f.describe_view(),
            AppFilter::Kuwahara(f) => f.describe_view(),
            AppFilter::Mosaic(f) => f.describe_view(),
            AppFilter::Truncate(f) => f.describe_view(),
        }
    }

    fn describe(&self) -> (r: String) {
        match self {
            AppFilter::Gaussian(f) => f.describe(),
            AppFilter::GrayScale(f) => f.describe(),
            AppFilter::Kuwahara(f) => f.describe(),
            AppFilter::Mosaic(f) => f.describe(),
            AppFilter::Truncate(f) => f.describe(),
        }
    }
}

} // verus!
