//! Image proxy helpers: the two image origins and their path handling, and
//! the thumbnail format bookkeeping.  Fetching and the fallback loop over
//! thumbnail formats stay with the HTTP client outside.

use vstd::prelude::*;
use vstd::string::StrSliceExecFns;

verus! {

/// The two image origins served through the proxy.
#[derive(Debug, Clone, Copy, PartialEq, Eq, Structural)]
pub enum ImageSource {
    YtImg,
    GgPht,
}

impl ImageSource {
    /// Strips the origin's routing prefix from a request path: `/ggpht`
    /// for the avatar origin, nothing for the thumbnail origin.
    pub fn strip_path_prefix<'p>(&self, path: &'p str) -> (r: &'p str)
        requires
            *self == ImageSource::GgPht ==> path@.len() >= 6,
        ensures
            r@ == (match *self {
                ImageSource::YtImg => path@,
                ImageSource::GgPht => path@.skip(6),
            }),
    {
        match self {
            ImageSource::YtImg => path,
            ImageSource::GgPht => {
                let r = path.substring_char(6, path.unicode_len());
                proof {
                    assert(r@ =~= path@.skip(6));
                }
                r
            },
        }
    }
}

/// The longest of the candidate thumbnail format segments and the default,
/// for sizing the path buffer that cycles through them.
pub fn get_formats_max_length(formats: &[&str], default_format: &str) -> (r: usize)
    ensures
        r >= default_format@.len(),
        forall|i: int| 0 <= i < formats@.len() ==> r >= (#[trigger] formats@[i])@.len(),
        r == default_format@.len() || exists|i: int|
            0 <= i < formats@.len() && r == (#[trigger] formats@[i])@.len(),
{
    let mut max_len = default_format.unicode_len();
    let mut i: usize = 0;
    while i < formats.len()
        invariant
            i <= formats@.len(),
            max_len >= default_format@.len(),
            forall|j: int| 0 <= j < i ==> max_len >= (#[trigger] formats@[j])@.len(),
            max_len == default_format@.len() || exists|j: int|
                0 <= j < formats@.len() && max_len == (#[trigger] formats@[j])@.len(),
        decreases formats@.len() - i,
    {
        let len = formats[i].unicode_len();
        if len > max_len {
            max_len = len;
        }
        i = i + 1;
    }
    max_len
}

} // verus!
