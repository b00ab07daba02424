//! Image upscaling algorithms with verified pixel-level contracts.
//!
//! The crate provides a family of resampling algorithms of increasing cost
//! (nearest-neighbor, bilinear, bicubic, Lanczos, edge-directed, pattern-rule,
//! iterative back-projection, total-variation regularization), a content
//! classifier that recommends an algorithm from measured image statistics,
//! and a registry that resolves case-insensitive algorithm names.
//!
//! All arithmetic is exact integer and rational arithmetic: scale factors are
//! rationals, kernel weights are exact rationals or fixed-point values, and
//! every resampler's output is pinned pixel for pixel by its contract.

use vstd::prelude::*;

pub mod arith;
pub mod content_analysis;
pub mod content_type;
pub mod event_chain_pipeline;
pub mod fast;
pub mod image;
pub mod instant;
pub mod medium;
pub mod scale;
pub mod slow;
pub mod upscale_tier;
pub mod upscaler;

use crate::fast::{Bicubic, Lanczos};
use crate::instant::{Bilinear, NearestNeighbor};
use crate::medium::{EdgeDirected, ScaleByRules};
use crate::slow::{IterativeBackProjection, TotalVariation};
use crate::upscale_tier::UpscaleTier;
use crate::upscaler::Upscaler;

verus! {

/// Failures the registry and selector can report.
#[derive(Debug, Clone, Copy, PartialEq, Eq, Structural)]
pub enum UpscaleError {
    /// The selector was given a name no registry entry carries.
    UnknownAlgorithm,
}

/// A character with any ASCII uppercase letter folded to lowercase.
pub open spec fn lower_char(c: char) -> char {
    if 'A' <= c && c <= 'Z' {
        ((c as u32) + 32) as char
    } else {
        c
    }
}

/// A character sequence with ASCII uppercase letters folded to lowercase.
pub open spec fn lower_chars(s: Seq<char>) -> Seq<char> {
    s.map_values(|c: char| lower_char(c))
}

/// Whether the ASCII-lowercased `name` equals `key`.
fn eq_lower(name: &str, key: &str) -> (r: bool)
    ensures
        r == (lower_chars(name@) == key@),
{
    let n = name.unicode_len();
    let k = key.unicode_len();
    if n != k {
        proof {
            assert(lower_chars(name@).len() == name@.len());
        }
        return false;
    }
    let mut i: usize = 0;
    while i < n
        invariant
            i <= n,
            n == name@.len(),
            n == key@.len(),
            forall|j: int| 0 <= j < i ==> lower_char(name@[j]) == key@[j],
        decreases n - i,
    {
        let c = name.get_char(i);
        let kc = key.get_char(i);
        let cu = c as u32;
        let lcu: u32 = if 'A' as u32 <= cu && cu <= 'Z' as u32 {
            cu + 32
        } else {
            cu
        };
        proof {
            assert(lcu == lower_char(name@[i as int]) as u32);
        }
        if lcu != kc as u32 {
            proof {
                assert(lower_chars(name@)[i as int] == lower_char(name@[i as int]));
                assert(lower_char(name@[i as int]) != key@[i as int]);
            }
            return false;
        }
        i = i + 1;
    }
    proof {
        assert(lower_chars(name@) =~= key@);
    }
    true
}

/// Whether two strings hold the same characters.
pub(crate) fn eq_exact(a: &str, b: &str) -> (r: bool)
    ensures
        r == (a@ == b@),
{
    let n = a.unicode_len();
    let k = b.unicode_len();
    if n != k {
        return false;
    }
    let mut i: usize = 0;
    while i < n
        invariant
            i <= n,
            n == a@.len(),
            n == b@.len(),
            forall|j: int| 0 <= j < i ==> a@[j] == b@[j],
        decreases n - i,
    {
        let c = a.get_char(i);
        let kc = b.get_char(i);
        if c as u32 != kc as u32 {
            proof {
                assert(a@[i as int] != b@[i as int]);
            }
            return false;
        }
        i = i + 1;
    }
    proof {
        assert(a@ =~= b@);
    }
    true
}

/// The fixed registry: each lowercased name and its algorithm.
pub open spec fn registry_spec(n: Seq<char>) -> Option<Upscaler> {
    if n == "nearest"@ || n == "nearest_neighbor"@ {
        Some(Upscaler::NearestNeighbor(NearestNeighbor))
    } else if n == "bilinear"@ {
        Some(Upscaler::Bilinear(Bilinear))
    } else if n == "bicubic"@ {
        Some(Upscaler::Bicubic(Bicubic))
    } else if n == "lanczos"@ || n == "lanczos3"@ {
        Some(Upscaler::Lanczos(Lanczos { lobes: 3 }))
    } else if n == "lanczos2"@ {
        Some(Upscaler::Lanczos(Lanczos { lobes: 2 }))
    } else if n == "lanczos4"@ {
        Some(Upscaler::Lanczos(Lanczos { lobes: 4 }))
    } else if n == "edge_directed"@ || n == "edi"@ {
        Some(Upscaler::EdgeDirected(EdgeDirected))
    } else if n == "scale_by_rules"@ || n == "xbr"@ {
        Some(Upscaler::ScaleByRules(ScaleByRules))
    } else if n == "ibp"@ || n == "back_projection"@ {
        Some(
            Upscaler::IterativeBackProjection(
                IterativeBackProjection { iterations: 10, rate_num: 1, rate_den: 2 },
            ),
        )
    } else if n == "tv"@ || n == "total_variation"@ {
        Some(
            Upscaler::TotalVariation(
                TotalVariation { iterations: 15, lambda_num: 1, lambda_den: 10 },
            ),
        )
    } else {
        None
    }
}

/// Resolve an upscaler by its registry name, case-insensitively; `None`
/// exactly when the lowercased name is not a registry key.
pub fn get_upscaler(name: &str) -> (r: Option<Upscaler>)
    ensures
        r == registry_spec(lower_chars(name@)),
        r is Some ==> r->0.wf(),
{
    if eq_lower(name, "nearest") || eq_lower(name, "nearest_neighbor") {
        Some(Upscaler::NearestNeighbor(NearestNeighbor))
    } else if eq_lower(name, "bilinear") {
        Some(Upscaler::Bilinear(Bilinear))
    } else if eq_lower(name, "bicubic") {
        Some(Upscaler::Bicubic(Bicubic))
    } else if eq_lower(name, "lanczos") || eq_lower(name, "lanczos3") {
        Some(Upscaler::Lanczos(Lanczos::new()))
    } else if eq_lower(name, "lanczos2") {
        Some(Upscaler::Lanczos(Lanczos::fast()))
    } else if eq_lower(name, "lanczos4") {
        Some(Upscaler::Lanczos(Lanczos::high_quality()))
    } else if eq_lower(name, "edge_directed") || eq_lower(name, "edi") {
        Some(Upscaler::EdgeDirected(EdgeDirected))
    } else if eq_lower(name, "scale_by_rules") || eq_lower(name, "xbr") {
        Some(Upscaler::ScaleByRules(ScaleByRules))
    } else if eq_lower(name, "ibp") || eq_lower(name, "back_projection") {
        Some(Upscaler::IterativeBackProjection(IterativeBackProjection::new()))
    } else if eq_lower(name, "tv") || eq_lower(name, "total_variation") {
        Some(Upscaler::TotalVariation(TotalVariation::new()))
    } else {
        None
    }
}

/// The fixed list of all available upscalers, cheapest tier first.
pub open spec fn all_upscalers_spec() -> Seq<Upscaler> {
    seq![
        Upscaler::NearestNeighbor(NearestNeighbor),
        Upscaler::Bilinear(Bilinear),
        Upscaler::Bicubic(Bicubic),
        Upscaler::Lanczos(Lanczos { lobes: 2 }),
        Upscaler::Lanczos(Lanczos { lobes: 3 }),
        Upscaler::Lanczos(Lanczos { lobes: 4 }),
        Upscaler::EdgeDirected(EdgeDirected),
        Upscaler::ScaleByRules(ScaleByRules),
        Upscaler::IterativeBackProjection(
            IterativeBackProjection { iterations: 5, rate_num: 1, rate_den: 2 },
        ),
        Upscaler::IterativeBackProjection(
            IterativeBackProjection { iterations: 10, rate_num: 1, rate_den: 2 },
        ),
        Upscaler::IterativeBackProjection(
            IterativeBackProjection { iterations: 20, rate_num: 3, rate_den: 10 },
        ),
        Upscaler::TotalVariation(TotalVariation { iterations: 15, lambda_num: 1, lambda_den: 10 }),
    ]
}

/// All available upscalers, cheapest tier first.
pub fn all_upscalers() -> (r: Vec<Upscaler>)
    ensures
        r@ == all_upscalers_spec(),
        forall|i: int| 0 <= i < r@.len() ==> (#[trigger] r@[i]).wf(),
{
    let mut v: Vec<Upscaler> = Vec::new();
    v.push(Upscaler::NearestNeighbor(NearestNeighbor));
    v.push(Upscaler::Bilinear(Bilinear));
    v.push(Upscaler::Bicubic(Bicubic));
    v.push(Upscaler::Lanczos(Lanczos::fast()));
    v.push(Upscaler::Lanczos(Lanczos::new()));
    v.push(Upscaler::Lanczos(Lanczos::high_quality()));
    v.push(Upscaler::EdgeDirected(EdgeDirected));
    v.push(Upscaler::ScaleByRules(ScaleByRules));
    v.push(Upscaler::IterativeBackProjection(IterativeBackProjection::fast()));
    v.push(Upscaler::IterativeBackProjection(IterativeBackProjection::new()));
    v.push(Upscaler::IterativeBackProjection(IterativeBackProjection::quality()));
    v.push(Upscaler::TotalVariation(TotalVariation::new()));
    proof {
        assert(v@ =~= all_upscalers_spec());
    }
    v
}

/// The upscalers of the list that carry the given tier, in list order.
pub open spec fn upscalers_with_tier(s: Seq<Upscaler>, tier: UpscaleTier) -> Seq<Upscaler>
    decreases s.len(),
{
    if s.len() == 0 {
        Seq::empty()
    } else if s.last().tier_spec() == tier {
        upscalers_with_tier(s.drop_last(), tier).push(s.last())
    } else {
        upscalers_with_tier(s.drop_last(), tier)
    }
}

/// All upscalers of one cost tier, in registry order.
pub fn upscalers_by_tier(tier: UpscaleTier) -> (r: Vec<Upscaler>)
    ensures
        r@ == upscalers_with_tier(all_upscalers_spec(), tier),
{
    let all = all_upscalers();
    let n = all.len();
    let mut v: Vec<Upscaler> = Vec::new();
    let mut i: usize = 0;
    while i < n
        invariant
            i <= n,
            n == all@.len(),
            all@ == all_upscalers_spec(),
            v@ == upscalers_with_tier(all@.take(i as int), tier),
        decreases n - i,
    {
        let u = all[i];
        let t = u.tier();
        proof {
            assert(all@.take(i + 1).drop_last() =~= all@.take(i as int));
            assert(all@.take(i + 1).last() == all@[i as int]);
        }
        if t == tier {
            v.push(u);
        }
        i = i + 1;
    }
    proof {
        assert(all@.take(n as int) =~= all@);
    }
    v
}

/// The registry the direct processing path uses: exact lowercased names,
/// with the back-projection presets spelled out.
pub open spec fn traditional_spec(n: Seq<char>) -> Option<Upscaler> {
    if n == "nearest"@ {
        Some(Upscaler::NearestNeighbor(NearestNeighbor))
    } else if n == "bilinear"@ {
        Some(Upscaler::Bilinear(Bilinear))
    } else if n == "bicubic"@ {
        Some(Upscaler::Bicubic(Bicubic))
    } else if n == "lanczos2"@ {
        Some(Upscaler::Lanczos(Lanczos { lobes: 2 }))
    } else if n == "lanczos3"@ {
        Some(Upscaler::Lanczos(Lanczos { lobes: 3 }))
    } else if n == "lanczos4"@ {
        Some(Upscaler::Lanczos(Lanczos { lobes: 4 }))
    } else if n == "ibp-fast"@ {
        Some(
            Upscaler::IterativeBackProjection(
                IterativeBackProjection { iterations: 5, rate_num: 1, rate_den: 2 },
            ),
        )
    } else if n == "ibp"@ || n == "ibp-standard"@ {
        Some(
            Upscaler::IterativeBackProjection(
                IterativeBackProjection { iterations: 10, rate_num: 1, rate_den: 2 },
            ),
        )
    } else if n == "ibp-quality"@ {
        Some(
            Upscaler::IterativeBackProjection(
                IterativeBackProjection { iterations: 20, rate_num: 3, rate_den: 10 },
            ),
        )
    } else {
        None
    }
}

/// Resolve an upscaler for the direct processing path, case-insensitively;
/// fails with `UnknownAlgorithm` exactly when the lowercased name is not one
/// of its keys.
pub fn get_traditional_upscaler(algorithm: &str) -> (r: Result<Upscaler, UpscaleError>)
    ensures
        traditional_spec(lower_chars(algorithm@)) is Some ==> r == Ok::<Upscaler, UpscaleError>(
            traditional_spec(lower_chars(algorithm@))->0,
        ),
        traditional_spec(lower_chars(algorithm@)) is None ==> r == Err::<Upscaler, UpscaleError>(
            UpscaleError::UnknownAlgorithm,
        ),
        r is Ok ==> r->Ok_0.wf(),
{
    if eq_lower(algorithm, "nearest") {
        Ok(Upscaler::NearestNeighbor(NearestNeighbor))
    } else if eq_lower(algorithm, "bilinear") {
        Ok(Upscaler::Bilinear(Bilinear))
    } else if eq_lower(algorithm, "bicubic") {
        Ok(Upscaler::Bicubic(Bicubic))
    } else if eq_lower(algorithm, "lanczos2") {
        Ok(Upscaler::Lanczos(Lanczos::fast()))
    } else if eq_lower(algorithm, "lanczos3") {
        Ok(Upscaler::Lanczos(Lanczos::new()))
    } else if eq_lower(algorithm, "lanczos4") {
        Ok(Upscaler::Lanczos(Lanczos::high_quality()))
    } else if eq_lower(algorithm, "ibp-fast") {
        Ok(Upscaler::IterativeBackProjection(IterativeBackProjection::fast()))
    } else if eq_lower(algorithm, "ibp") || eq_lower(algorithm, "ibp-standard") {
        Ok(Upscaler::IterativeBackProjection(IterativeBackProjection::new()))
    } else if eq_lower(algorithm, "ibp-quality") {
        Ok(Upscaler::IterativeBackProjection(IterativeBackProjection::quality()))
    } else {
        Err(UpscaleError::UnknownAlgorithm)
    }
}

} // verus!
