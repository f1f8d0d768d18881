//! Execution paths and length validation of the batched per-hit damage kernel.

use vstd::prelude::*;
use crate::text::{ascii_lowercase_chars, ascii_lowercase_seq, chars_eq, str_chars, trim_seq, trim_str};

verus! {

/// Environment variable whose value switches the experimental batched kernel on.
pub const EXPERIMENTAL_KERNEL_ENV: &'static str = "KOBAYASHI_EXPERIMENTAL_SIMD_DAMAGE_KERNEL";

/// A switch value turns the kernel on when, trimmed and ASCII-lowercased, it is `1`, `true`,
/// `yes` or `on`.
pub open spec fn kernel_switch_on(value: Seq<char>) -> bool {
    let l = ascii_lowercase_seq(trim_seq(value));
    l == "1"@ || l == "true"@ || l == "yes"@ || l == "on"@
}

/// Whether the experimental kernel is enabled, given the value of
/// [`EXPERIMENTAL_KERNEL_ENV`] (`None` when the variable is unset or unreadable).
pub fn experimental_kernel_switch_enabled(value: Option<&str>) -> (r: bool)
    ensures
        r == match value {
            Some(v) => kernel_switch_on(v@),
            None => false,
        },
{
    match value {
        Some(v) => {
            let l = ascii_lowercase_chars(trim_str(v));
            chars_eq(&l, &str_chars("1")) || chars_eq(&l, &str_chars("true")) || chars_eq(
                &l,
                &str_chars("yes"),
            ) || chars_eq(&l, &str_chars("on"))
        },
        None => false,
    }
}

#[derive(Debug, Clone, Copy, PartialEq, Eq, Structural)]
pub enum KernelExecutionPath {
    Scalar,
    Avx2,
}

#[derive(Debug, Clone, Copy, PartialEq, Eq, Structural)]
pub enum DamageKernelBatchError {
    LengthMismatch,
    UnsupportedSimd,
}

/// Number of per-hit input columns besides the attack column.
pub const KERNEL_OTHER_INPUTS: usize = 9;

/// Number of per-hit output columns.
pub const KERNEL_OUTPUTS: usize = 3;

/// Every input and output column has the attack column's length `len`.
pub open spec fn batch_lengths_match(
    len: usize,
    input_lengths: [usize; KERNEL_OTHER_INPUTS],
    output_lengths: [usize; KERNEL_OUTPUTS],
) -> bool {
    (forall|i: int| 0 <= i < 9 ==> #[trigger] input_lengths@[i] == len) && (forall|i: int|
        0 <= i < 3 ==> #[trigger] output_lengths@[i] == len)
}

/// Check the column lengths of a kernel batch: `len` is the attack column's length,
/// `input_lengths` those of the nine other input columns, `output_lengths` those of the three
/// output columns.
pub fn validate_lengths(
    len: usize,
    input_lengths: [usize; KERNEL_OTHER_INPUTS],
    output_lengths: [usize; KERNEL_OUTPUTS],
) -> (r: Result<(), DamageKernelBatchError>)
    ensures
        r is Ok <==> batch_lengths_match(len, input_lengths, output_lengths),
        r is Err ==> r == Err::<(), DamageKernelBatchError>(DamageKernelBatchError::LengthMismatch),
{
    let mut i: usize = 0;
    while i < KERNEL_OTHER_INPUTS
        invariant
            i <= 9,
            forall|j: int| 0 <= j < i ==> #[trigger] input_lengths@[j] == len,
        decreases 9 - i,
    {
        if input_lengths[i] != len {
            return Err(DamageKernelBatchError::LengthMismatch);
        }
        i += 1;
    }
    let mut k: usize = 0;
    while k < KERNEL_OUTPUTS
        invariant
            k <= 3,
            forall|j: int| 0 <= j < 9 ==> #[trigger] input_lengths@[j] == len,
            forall|j: int| 0 <= j < k ==> #[trigger] output_lengths@[j] == len,
        decreases 3 - k,
    {
        if output_lengths[k] != len {
            return Err(DamageKernelBatchError::LengthMismatch);
        }
        k += 1;
    }
    Ok(())
}

} // verus!
