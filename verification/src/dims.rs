//! Dimension checks on sample matrices, fitting problems, weights, models and
//! state-space realizations: the rules on sizes that every numeric path relies on.

use vstd::prelude::*;

use crate::error::{error_from, fails_with, ErrorKind, VecfitError};
use crate::shape::{channel_count, Shape};
use crate::text::{debug_list, decimal, push_debug_list, push_decimal};

verus! {


/// `prefix n middle m suffix`, with the numbers in decimal.
pub open spec fn msg2(prefix: Seq<char>, n: nat, middle: Seq<char>, m: nat, suffix: Seq<char>) -> Seq<char> {
    prefix + decimal(n) + middle + decimal(m) + suffix
}

fn make_msg2(prefix: &str, n: usize, middle: &str, m: usize, suffix: &str) -> (s: String)
    ensures
        s@ == msg2(prefix@, n as nat, middle@, m as nat, suffix@),
{
    let mut s = String::from_str(prefix);
    push_decimal(&mut s, n);
    s.append(middle);
    push_decimal(&mut s, m);
    s.append(suffix);
    s
}

/// Checks the sizes of a flat `(sample, channel)` buffer of `values_len` values.
pub fn check_sample_matrix(values_len: usize, samples: usize, channels: usize) -> (r: Result<
    (),
    VecfitError,
>)
    ensures
        samples == 0 ==> fails_with(
            r,
            ErrorKind::Dimension,
            "sample matrix must have at least one row"@,
        ),
        samples > 0 && channels == 0 ==> fails_with(
            r,
            ErrorKind::Dimension,
            "sample matrix must have at least one channel"@,
        ),
        samples > 0 && channels > 0 && values_len != samples * channels ==> fails_with(
            r,
            ErrorKind::Dimension,
            "sample matrix length "@ + decimal(values_len as nat) + " does not match "@ + decimal(
                samples as nat,
            ) + "x"@ + decimal(channels as nat),
        ),
        r is Ok <==> (samples > 0 && channels > 0 && values_len == samples * channels),
{
    if samples == 0 {
        return Err(error_from(ErrorKind::Dimension, "sample matrix must have at least one row"));
    }
    if channels == 0 {
        return Err(
            error_from(ErrorKind::Dimension, "sample matrix must have at least one channel"),
        );
    }
    let matches = match samples.checked_mul(channels) {
        Some(total) => total == values_len,
        None => false,
    };
    if !matches {
        let mut s = String::from_str("sample matrix length ");
        push_decimal(&mut s, values_len);
        s.append(" does not match ");
        push_decimal(&mut s, samples);
        s.append("x");
        push_decimal(&mut s, channels);
        return Err(VecfitError::Dimension(s));
    }
    Ok(())
}

/// Checks that a weight vector has one weight per sample.
pub fn check_weights_len(weights_len: usize, samples: usize) -> (r: Result<(), VecfitError>)
    ensures
        weights_len == samples <==> r is Ok,
        weights_len != samples ==> fails_with(
            r,
            ErrorKind::Dimension,
            msg2(
                "weights length "@,
                weights_len as nat,
                " does not match sample length "@,
                samples as nat,
                ""@,
            ),
        ),
{
    if weights_len != samples {
        return Err(
            VecfitError::Dimension(
                make_msg2("weights length ", weights_len, " does not match sample length ", samples, ""),
            ),
        );
    }
    Ok(())
}

/// Checks a fitting problem: a non-empty axis, one response row per axis point,
/// and as many response channels as the shape has.
pub fn check_problem(axis_len: usize, samples: usize, channels: usize, shape: &Shape) -> (r:
    Result<(), VecfitError>)
    requires
        shape.wf(),
    ensures
        axis_len == 0 ==> fails_with(r, ErrorKind::InvalidInput, "sample axis cannot be empty"@),
        axis_len > 0 && samples != axis_len ==> fails_with(
            r,
            ErrorKind::Dimension,
            msg2(
                "response rows "@,
                samples as nat,
                " do not match sample length "@,
                axis_len as nat,
                ""@,
            ),
        ),
        axis_len > 0 && samples == axis_len && channels != channel_count(shape@) ==> fails_with(
            r,
            ErrorKind::Dimension,
            "response channels "@ + decimal(channels as nat) + " do not match shape "@
                + debug_list(shape@),
        ),
        r is Ok <==> (axis_len > 0 && samples == axis_len && channels == channel_count(shape@)),
{
    if axis_len == 0 {
        return Err(error_from(ErrorKind::InvalidInput, "sample axis cannot be empty"));
    }
    if samples != axis_len {
        return Err(
            VecfitError::Dimension(
                make_msg2("response rows ", samples, " do not match sample length ", axis_len, ""),
            ),
        );
    }
    if channels != shape.channels() {
        let mut s = String::from_str("response channels ");
        push_decimal(&mut s, channels);
        s.append(" do not match shape ");
        push_debug_list(&mut s, shape.dims());
        return Err(VecfitError::Dimension(s));
    }
    Ok(())
}

/// The sizes of a fitted model's coefficient arrays.
#[derive(Debug)]
pub struct ModelSizes {
    pub channels: usize,
    pub poles: usize,
    pub residues: usize,
    pub constant_terms: usize,
    pub proportional_terms: usize,
}

pub open spec fn model_shape_msg(dims: Seq<usize>, channels: nat) -> Seq<char> {
    "model shape "@ + debug_list(dims) + " expects "@ + decimal(channel_count(dims))
        + " channels but model declares "@ + decimal(channels)
}

pub open spec fn residue_count_msg(residues: nat, poles: nat, channels: nat) -> Seq<char> {
    "model residue count "@ + decimal(residues) + " does not match "@ + decimal(poles)
        + " poles x "@ + decimal(channels) + " channels"@
}

/// The model invariants assumed by evaluation and export: at least one channel, as many
/// channels as the shape, a residue per pole and channel, and one constant and one
/// proportional term per channel.
pub open spec fn model_sizes_ok(m: ModelSizes, dims: Seq<usize>) -> bool {
    &&& m.channels > 0
    &&& channel_count(dims) == m.channels
    &&& m.residues == m.poles * m.channels
    &&& m.constant_terms == m.channels
    &&& m.proportional_terms == m.channels
}

/// Checks a model's coefficient sizes against its channel count and shape.
pub fn check_model(sizes: &ModelSizes, shape: &Shape) -> (r: Result<(), VecfitError>)
    requires
        shape.wf(),
    ensures
        r is Ok <==> model_sizes_ok(*sizes, shape@),
        sizes.channels == 0 ==> fails_with(
            r,
            ErrorKind::Dimension,
            "model must have at least one channel"@,
        ),
        sizes.channels > 0 && channel_count(shape@) != sizes.channels ==> fails_with(
            r,
            ErrorKind::Dimension,
            model_shape_msg(shape@, sizes.channels as nat),
        ),
        sizes.channels > 0 && channel_count(shape@) == sizes.channels && sizes.poles
            * sizes.channels > usize::MAX ==> fails_with(
            r,
            ErrorKind::InvalidInput,
            "model residue matrix is too large"@,
        ),
        sizes.channels > 0 && channel_count(shape@) == sizes.channels && sizes.poles
            * sizes.channels <= usize::MAX && sizes.residues != sizes.poles * sizes.channels
            ==> fails_with(
            r,
            ErrorKind::Dimension,
            residue_count_msg(sizes.residues as nat, sizes.poles as nat, sizes.channels as nat),
        ),
        sizes.channels > 0 && channel_count(shape@) == sizes.channels && sizes.residues
            == sizes.poles * sizes.channels && sizes.constant_terms != sizes.channels
            ==> fails_with(
            r,
            ErrorKind::Dimension,
            msg2(
                "constant term count "@,
                sizes.constant_terms as nat,
                " does not match channel count "@,
                sizes.channels as nat,
                ""@,
            ),
        ),
        sizes.channels > 0 && channel_count(shape@) == sizes.channels && sizes.residues
            == sizes.poles * sizes.channels && sizes.constant_terms == sizes.channels
            && sizes.proportional_terms != sizes.channels ==> fails_with(
            r,
            ErrorKind::Dimension,
            msg2(
                "proportional term count "@,
                sizes.proportional_terms as nat,
                " does not match channel count "@,
                sizes.channels as nat,
                ""@,
            ),
        ),
{
    let channels = sizes.channels;
    if channels == 0 {
        return Err(error_from(ErrorKind::Dimension, "model must have at least one channel"));
    }
    let expected_channels = shape.channels();
    if expected_channels != channels {
        let mut s = String::from_str("model shape ");
        push_debug_list(&mut s, shape.dims());
        s.append(" expects ");
        push_decimal(&mut s, expected_channels);
        s.append(" channels but model declares ");
        push_decimal(&mut s, channels);
        return Err(VecfitError::Dimension(s));
    }
    let expected_residues = match sizes.poles.checked_mul(channels) {
        Some(n) => n,
        None => {
            return Err(error_from(ErrorKind::InvalidInput, "model residue matrix is too large"));
        },
    };
    if sizes.residues != expected_residues {
        let mut s = String::from_str("model residue count ");
        push_decimal(&mut s, sizes.residues);
        s.append(" does not match ");
        push_decimal(&mut s, sizes.poles);
        s.append(" poles x ");
        push_decimal(&mut s, channels);
        s.append(" channels");
        return Err(VecfitError::Dimension(s));
    }
    if sizes.constant_terms != channels {
        return Err(
            VecfitError::Dimension(
                make_msg2(
                    "constant term count ",
                    sizes.constant_terms,
                    " does not match channel count ",
                    channels,
                    "",
                ),
            ),
        );
    }
    if sizes.proportional_terms != channels {
        return Err(
            VecfitError::Dimension(
                make_msg2(
                    "proportional term count ",
                    sizes.proportional_terms,
                    " does not match channel count ",
                    channels,
                    "",
                ),
            ),
        );
    }
    Ok(())
}

/// The sizes of a single-channel realization agree: an `n x n` matrix `A` and
/// vectors `B` and `C` of length `n`.
pub open spec fn state_space_sizes_ok(a_len: nat, b_len: nat, c_len: nat, n_states: nat) -> bool {
    a_len == n_states * n_states && b_len == n_states && c_len == n_states
}

/// Checks a single-channel state-space realization: an `n x n` matrix `A` and
/// vectors `B` and `C` of length `n`.
pub fn check_state_space(a_len: usize, b_len: usize, c_len: usize, n_states: usize) -> (r: Result<
    (),
    VecfitError,
>)
    ensures
        r is Ok <==> state_space_sizes_ok(a_len as nat, b_len as nat, c_len as nat, n_states as nat),
        n_states * n_states > usize::MAX ==> fails_with(
            r,
            ErrorKind::InvalidInput,
            "state-space matrix is too large"@,
        ),
        n_states * n_states <= usize::MAX && a_len != n_states * n_states ==> fails_with(
            r,
            ErrorKind::Dimension,
            "state-space A length "@ + decimal(a_len as nat) + " does not match "@ + decimal(
                n_states as nat,
            ) + "x"@ + decimal(n_states as nat),
        ),
        a_len == n_states * n_states && b_len != n_states ==> fails_with(
            r,
            ErrorKind::Dimension,
            msg2(
                "state-space B length "@,
                b_len as nat,
                " does not match n_states "@,
                n_states as nat,
                ""@,
            ),
        ),
        a_len == n_states * n_states && b_len == n_states && c_len != n_states ==> fails_with(
            r,
            ErrorKind::Dimension,
            msg2(
                "state-space C length "@,
                c_len as nat,
                " does not match n_states "@,
                n_states as nat,
                ""@,
            ),
        ),
{
    let expected_a = match n_states.checked_mul(n_states) {
        Some(n) => n,
        None => {
            return Err(error_from(ErrorKind::InvalidInput, "state-space matrix is too large"));
        },
    };
    if a_len != expected_a {
        let mut s = String::from_str("state-space A length ");
        push_decimal(&mut s, a_len);
        s.append(" does not match ");
        push_decimal(&mut s, n_states);
        s.append("x");
        push_decimal(&mut s, n_states);
        return Err(VecfitError::Dimension(s));
    }
    if b_len != n_states {
        return Err(
            VecfitError::Dimension(
                make_msg2("state-space B length ", b_len, " does not match n_states ", n_states, ""),
            ),
        );
    }
    if c_len != n_states {
        return Err(
            VecfitError::Dimension(
                make_msg2("state-space C length ", c_len, " does not match n_states ", n_states, ""),
            ),
        );
    }
    Ok(())
}

/// Checks parsed samples: one frequency and one response row per axis point.
pub fn check_parsed(frequency_len: usize, axis_len: usize, sample_rows: usize) -> (r: Result<
    (),
    VecfitError,
>)
    ensures
        r is Ok <==> (frequency_len == axis_len && sample_rows == axis_len),
        frequency_len != axis_len ==> fails_with(
            r,
            ErrorKind::Dimension,
            msg2(
                "frequency_hz length "@,
                frequency_len as nat,
                " does not match axis length "@,
                axis_len as nat,
                ""@,
            ),
        ),
        frequency_len == axis_len && sample_rows != axis_len ==> fails_with(
            r,
            ErrorKind::Dimension,
            msg2(
                "sample matrix rows "@,
                sample_rows as nat,
                " do not match axis length "@,
                axis_len as nat,
                ""@,
            ),
        ),
{
    if frequency_len != axis_len {
        return Err(
            VecfitError::Dimension(
                make_msg2(
                    "frequency_hz length ",
                    frequency_len,
                    " does not match axis length ",
                    axis_len,
                    "",
                ),
            ),
        );
    }
    if sample_rows != axis_len {
        return Err(
            VecfitError::Dimension(
                make_msg2("sample matrix rows ", sample_rows, " do not match axis length ", axis_len, ""),
            ),
        );
    }
    Ok(())
}

/// Checks that a shape describes exactly `channels` channels.
pub fn check_shape_channels(shape: &Shape, channels: usize) -> (r: Result<(), VecfitError>)
    requires
        shape.wf(),
    ensures
        r is Ok <==> channel_count(shape@) == channels,
        channel_count(shape@) != channels ==> fails_with(
            r,
            ErrorKind::Dimension,
            "shape "@ + debug_list(shape@) + " expects "@ + decimal(channel_count(shape@))
                + " channels but data has "@ + decimal(channels as nat),
        ),
{
    let expected = shape.channels();
    if expected != channels {
        let mut s = String::from_str("shape ");
        push_debug_list(&mut s, shape.dims());
        s.append(" expects ");
        push_decimal(&mut s, expected);
        s.append(" channels but data has ");
        push_decimal(&mut s, channels);
        return Err(VecfitError::Dimension(s));
    }
    Ok(())
}

/// Checks that a least-squares system has at least as many equations as unknowns.
pub fn check_least_squares(rows: usize, cols: usize) -> (r: Result<(), VecfitError>)
    ensures
        r is Ok <==> rows >= cols,
        rows < cols ==> fails_with(
            r,
            ErrorKind::InvalidInput,
            msg2(
                "least-squares system is underdetermined ("@,
                rows as nat,
                " rows for "@,
                cols as nat,
                " unknowns); provide more samples or reduce the number of fitted terms"@,
            ),
        ),
{
    if rows < cols {
        return Err(
            VecfitError::InvalidInput(
                make_msg2(
                    "least-squares system is underdetermined (",
                    rows,
                    " rows for ",
                    cols,
                    " unknowns); provide more samples or reduce the number of fitted terms",
                ),
            ),
        );
    }
    Ok(())
}

/// Checks the pole count requested for a fit, and the count of user-supplied
/// starting poles against it.
pub fn check_pole_count(poles: usize) -> (r: Result<(), VecfitError>)
    ensures
        r is Ok <==> poles > 0,
        poles == 0 ==> fails_with(r, ErrorKind::InvalidInput, "poles must be at least 1"@),
{
    if poles == 0 {
        return Err(error_from(ErrorKind::InvalidInput, "poles must be at least 1"));
    }
    Ok(())
}

/// Checks that user-supplied starting poles number exactly `poles`.
pub fn check_initial_poles(given: usize, poles: usize) -> (r: Result<(), VecfitError>)
    ensures
        r is Ok <==> given == poles,
        given != poles ==> fails_with(
            r,
            ErrorKind::InvalidInput,
            msg2("initial pole count "@, given as nat, " does not match poles "@, poles as nat, ""@),
        ),
{
    if given != poles {
        return Err(
            VecfitError::InvalidInput(
                make_msg2("initial pole count ", given, " does not match poles ", poles, ""),
            ),
        );
    }
    Ok(())
}

/// The pole counts an automatic pole-count search tries, in order: from
/// `max(min_poles, 1)` up to `max(max_poles, that)`, by 1 for real-only fits and
/// by 2 otherwise.
pub open spec fn auto_pole_counts(min_poles: nat, max_poles: nat, real_only: bool) -> Seq<nat> {
    let lo = if min_poles >= 1 {
        min_poles
    } else {
        1
    };
    let hi = if max_poles >= lo {
        max_poles
    } else {
        lo
    };
    let step: nat = if real_only {
        1
    } else {
        2
    };
    pole_range(lo, hi, step)
}

/// `lo, lo + step, ...` up to `hi`.
pub open spec fn pole_range(lo: nat, hi: nat, step: nat) -> Seq<nat> {
    Seq::new((((hi - lo) as int) / (step as int) + 1) as nat, |k: int| (lo + k * step) as nat)
}

/// The pole counts of an automatic search, as [`auto_pole_counts`] lists them.
pub fn auto_pole_schedule(min_poles: usize, max_poles: usize, real_only: bool) -> (r: Vec<usize>)
    requires
        min_poles < usize::MAX - 2,
        max_poles < usize::MAX - 2,
    ensures
        r@.map_values(|n: usize| n as nat) == auto_pole_counts(
            min_poles as nat,
            max_poles as nat,
            real_only,
        ),
{
    let lo = if min_poles >= 1 {
        min_poles
    } else {
        1
    };
    let hi = if max_poles >= lo {
        max_poles
    } else {
        lo
    };
    let step: usize = if real_only {
        1
    } else {
        2
    };
    let ghost expected = pole_range(lo as nat, hi as nat, step as nat);
    assert(expected == auto_pole_counts(min_poles as nat, max_poles as nat, real_only));
    let mut out: Vec<usize> = Vec::new();
    let mut n = lo;
    let mut k: usize = 0;
    while n <= hi
        invariant
            lo <= hi < usize::MAX - 2,
            step == 1 || step == 2,
            step == 1 <==> real_only,
            n == lo + k * step,
            expected == pole_range(lo as nat, hi as nat, step as nat),
            expected.len() == (hi - lo) / (step as int) + 1,
            n <= hi + step,
            k <= expected.len(),
            k == 0 || n - step <= hi,
            out@.map_values(|v: usize| v as nat) == expected.take(k as int),
        decreases hi + step - n,
    {
        proof {
            assert((n - lo) / (step as int) == k as int) by (nonlinear_arith)
                requires
                    n == lo + k * step,
                    step >= 1,
            ;
            assert(k < expected.len()) by (nonlinear_arith)
                requires
                    (n - lo) / (step as int) == k as int,
                    n <= hi,
                    expected.len() == (hi - lo) / (step as int) + 1,
                    step >= 1,
                    lo <= n,
            ;
            assert(expected[k as int] == (lo + k * step) as nat);
            assert(expected[k as int] == n);
            assert(expected.take(k + 1) == expected.take(k as int).push(n as nat));
        }
        out.push(n);
        n = n + step;
        k = k + 1;
    }
    proof {
        assert(k == expected.len()) by (nonlinear_arith)
            requires
                n == lo + k * step,
                n > hi,
                n - step <= hi || k == 0,
                expected.len() == (hi - lo) / (step as int) + 1,
                step >= 1,
                lo <= hi,
        ;
        assert(expected.take(k as int) == expected);
    }
    out
}

} // verus!
