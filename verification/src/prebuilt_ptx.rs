//! Choice of the precompiled kernels for a device.
//!
//! Kernels are compiled ahead of time for a list of architectures. A device runs
//! those of the highest architecture that is not newer than itself.
use vstd::prelude::*;
use vstd::string::StringExecFns;

use crate::text::{decimal, join2, join3, number};

verus! {

/// Architectures that kernels are compiled for, ascending.
pub const PREBUILT_SMS: &'static [u32; 7] = &[61, 70, 75, 80, 86, 89, 90];

/// Oldest supported architecture, the first of [`PREBUILT_SMS`].
pub const MIN_SM: u32 = 61;

/// Whether kernels are compiled for an architecture.
pub open spec fn prebuilt(sm: u32) -> bool {
    PREBUILT_SMS@.contains(sm)
}

/// Encodes `(major, minor)` as one number, `(8, 6)` as 86.
pub fn sm_code(major: i32, minor: i32) -> (r: u32)
    requires
        (major as u32) * 10 + (minor as u32) <= u32::MAX,
    ensures
        r == (major as u32) * 10 + (minor as u32),
        0 <= major && 0 <= minor ==> r == major * 10 + minor,
{
    let high: u32 = #[verifier::truncate] (major as u32);
    let low: u32 = #[verifier::truncate] (minor as u32);
    high * 10 + low
}

/// The highest architecture with kernels that is not newer than the device, if
/// there is one.
pub open spec fn best_for(device_sm: u32, r: Option<u32>) -> bool {
    match r {
        Some(sm) => {
            &&& prebuilt(sm)
            &&& sm <= device_sm
            &&& forall|other: u32| #[trigger] prebuilt(other) && other <= device_sm ==> other <= sm
        },
        None => device_sm < MIN_SM,
    }
}

/// Chooses the highest architecture with kernels that is not newer than the
/// device. Devices older than [`MIN_SM`] have none.
pub fn select_prebuilt_sm(device_sm: u32) -> (r: Option<u32>)
    ensures
        best_for(device_sm, r),
        r is None <==> device_sm < MIN_SM,
{
    let mut best: Option<u32> = None;
    let mut i: usize = 0;
    while i < 7
        invariant
            i <= 7,
            i == 0 ==> best is None,
            i > 0 ==> best == Some(PREBUILT_SMS@[i - 1]),
            forall|k: int| 0 <= k < i ==> #[trigger] PREBUILT_SMS@[k] <= device_sm,
        decreases 7 - i,
    {
        let sm: u32 = PREBUILT_SMS[i];
        if sm <= device_sm {
            best = Some(sm);
        } else {
            return best;
        }
        i += 1;
    }
    best
}

/// The compiled kernels, one text per architecture.
pub struct PtxTexts {
    pub sm61: &'static str,
    pub sm70: &'static str,
    pub sm75: &'static str,
    pub sm80: &'static str,
    pub sm86: &'static str,
    pub sm89: &'static str,
    pub sm90: &'static str,
}

impl PtxTexts {
    /// The kernels of an architecture.
    pub open spec fn text(self, sm: u32) -> Option<&'static str> {
        match sm {
            61 => Some(self.sm61),
            70 => Some(self.sm70),
            75 => Some(self.sm75),
            80 => Some(self.sm80),
            86 => Some(self.sm86),
            89 => Some(self.sm89),
            90 => Some(self.sm90),
            _ => None,
        }
    }
}

/// The kernels of an architecture, `None` where there are none for it.
pub fn ptx_for_sm(texts: &PtxTexts, sm: u32) -> (r: Option<&'static str>)
    ensures
        r == texts.text(sm),
        r is Some <==> prebuilt(sm),
{
    proof {
        lemma_prebuilt(sm);
    }
    match sm {
        61 => Some(texts.sm61),
        70 => Some(texts.sm70),
        75 => Some(texts.sm75),
        80 => Some(texts.sm80),
        86 => Some(texts.sm86),
        89 => Some(texts.sm89),
        90 => Some(texts.sm90),
        _ => None,
    }
}

proof fn lemma_prebuilt(sm: u32)
    ensures
        prebuilt(sm) <==> sm == 61 || sm == 70 || sm == 75 || sm == 80 || sm == 86 || sm == 89 || sm
            == 90,
{
    let list = PREBUILT_SMS@;
    assert(list[0] == 61 && list[1] == 70 && list[2] == 75 && list[3] == 80 && list[4] == 86
        && list[5] == 89 && list[6] == 90);
}

/// What is said of a device that is too old.
pub open spec fn too_old(device_sm: u32) -> Seq<char> {
    "GPU compute capability sm_"@ + decimal(device_sm as int)
        + " is below the minimum supported sm_"@ + decimal(MIN_SM as int)
}

/// The kernels for a device `(major, minor)` and the architecture they are
/// compiled for. A device that is too old is refused with a message.
pub fn resolve_ptx_for_device(texts: &PtxTexts, major: i32, minor: i32) -> (r: Result<
    (&'static str, u32),
    String,
>)
    requires
        (major as u32) * 10 + (minor as u32) <= u32::MAX,
    ensures
        ({
            let device_sm = ((major as u32) * 10 + (minor as u32)) as u32;
            match r {
                Ok((ptx, sm)) => {
                    &&& MIN_SM <= device_sm
                    &&& best_for(device_sm, Some(sm))
                    &&& texts.text(sm) == Some(ptx)
                },
                Err(message) => device_sm < MIN_SM && message@ == too_old(device_sm),
            }
        }),
{
    let device_sm: u32 = sm_code(major, minor);
    match select_prebuilt_sm(device_sm) {
        Some(selected) => match ptx_for_sm(texts, selected) {
            Some(ptx) => Ok((ptx, selected)),
            None => {
                let digits = number(selected as u64);
                Err(join2("internal error: missing embedded PTX for sm_", digits.as_str()))
            },
        },
        None => {
            let device = number(device_sm as u64);
            let least = number(MIN_SM as u64);
            let mut message = join3(
                "GPU compute capability sm_",
                device.as_str(),
                " is below the minimum supported sm_",
            );
            message.append(least.as_str());
            Err(message)
        },
    }
}

/// Kernels are never compiled for an architecture newer than the device, and a
/// newer device never gets older ones.
pub proof fn law_newer_device_no_older_kernels(
    older: u32,
    newer: u32,
    a: Option<u32>,
    b: Option<u32>,
)
    requires
        older <= newer,
        best_for(older, a),
        best_for(newer, b),
    ensures
        a matches Some(x) ==> x <= older && (b matches Some(y) && x <= y <= newer),
{
    lemma_prebuilt(61);
    if let Some(x) = a {
        lemma_prebuilt(x);
        assert(prebuilt(x) && x <= newer);
    }
}

/// Which architecture a device gets the kernels of: the next one at or below its own
/// among 6.1, 7.0, 7.5, 8.0, 8.6, 8.9 and 9.0, and none below 6.1.
pub proof fn law_architecture_of_device(device_sm: u32, r: Option<u32>)
    requires
        best_for(device_sm, r),
    ensures
        device_sm < 61 <==> r is None,
        61 <= device_sm < 70 ==> r == Some(61u32),
        70 <= device_sm < 75 ==> r == Some(70u32),
        75 <= device_sm < 80 ==> r == Some(75u32),
        80 <= device_sm < 86 ==> r == Some(80u32),
        86 <= device_sm < 89 ==> r == Some(86u32),
        89 <= device_sm < 90 ==> r == Some(89u32),
        90 <= device_sm ==> r == Some(90u32),
{
    lemma_prebuilt(61);
    lemma_prebuilt(70);
    lemma_prebuilt(75);
    lemma_prebuilt(80);
    lemma_prebuilt(86);
    lemma_prebuilt(89);
    lemma_prebuilt(90);
    if let Some(x) = r {
        lemma_prebuilt(x);
    }
}

/// An architecture has the kernels that were compiled for it and no others: two
/// architectures have one text only where the texts of both are the same.
pub proof fn law_text_of_architecture(texts: PtxTexts, sm: u32)
    ensures
        texts.text(sm) is Some <==> prebuilt(sm),
        sm == 61 ==> texts.text(sm) == Some(texts.sm61),
        sm == 70 ==> texts.text(sm) == Some(texts.sm70),
        sm == 75 ==> texts.text(sm) == Some(texts.sm75),
        sm == 80 ==> texts.text(sm) == Some(texts.sm80),
        sm == 86 ==> texts.text(sm) == Some(texts.sm86),
        sm == 89 ==> texts.text(sm) == Some(texts.sm89),
        sm == 90 ==> texts.text(sm) == Some(texts.sm90),
{
    lemma_prebuilt(sm);
}

/// A device whose architecture has kernels gets exactly those.
pub proof fn law_exact_architecture(sm: u32, r: Option<u32>)
    requires
        prebuilt(sm),
        best_for(sm, r),
    ensures
        r == Some(sm),
{
    lemma_prebuilt(sm);
}

} // verus!
