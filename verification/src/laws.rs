use vstd::prelude::*;
use vstd::arithmetic::div_mod::{
    lemma_div_basics, lemma_div_by_multiple, lemma_div_is_ordered,
    lemma_div_is_ordered_by_denominator, lemma_div_pos_is_pos, lemma_fundamental_div_mod,
    lemma_fundamental_div_mod_converse, lemma_mod_bound,
};
use crate::codec::{spec_output_hash, spec_signing_payload};
use crate::crypto::sr25519_ok;
use crate::difficulty::{
    config_wf, lemma_adj_ts_positive, spec_clamp, spec_damp, spec_diff_sum, spec_retarget,
    spec_ts_delta, Config, DifficultyAndTimestamp,
};
use crate::types::{Transaction, TransactionInput, TransactionOutput};
use crate::utxo::{
    scan_inputs, scan_outputs, spec_apply, spec_insert_outputs, spec_missing_utxos,
    spec_remove_inputs, spec_validate, InScan, OutScan,
};

verus! {

// The laws of the retargeting controller, stated over its mathematical
// definition. The bound of the result to the configured difficulty range
// holds by `update_difficulty`'s own contract; the laws below relate the
// result to the window's content.

/// A window of samples that all carry difficulty `d` sums to `len * d`.
proof fn lemma_diff_sum_const(w: Seq<DifficultyAndTimestamp>, d: u128)
    requires
        forall|i: int| 0 <= i < w.len() ==> (#[trigger] w[i]).difficulty == d,
    ensures
        spec_diff_sum(w) == w.len() * d,
    decreases w.len(),
{
    if w.len() == 0 {
    } else {
        lemma_diff_sum_const(w.drop_last(), d);
        assert(w.len() * d == (w.len() - 1) * d + d) by (nonlinear_arith);
    }
}

/// The observed window time is never negative.
proof fn lemma_ts_delta_nonneg(w: Seq<DifficultyAndTimestamp>)
    ensures
        spec_ts_delta(w) >= 0,
    decreases w.len(),
{
    if w.len() > 1 {
        lemma_ts_delta_nonneg(w.drop_last());
    }
}

/// Facts every retarget law needs about a constant-difficulty window: what the
/// undamped numerator is, and the bounds of the clamped interval.
proof fn lemma_retarget_setup(w: Seq<DifficultyAndTimestamp>, c: Config, d: u128)
    requires
        config_wf(c),
        w.len() == 60,
        forall|i: int| 0 <= i < w.len() ==> (#[trigger] w[i]).difficulty == d,
        c.min_difficulty <= d <= c.max_difficulty,
    ensures
        spec_diff_sum(w) == 60 * d,
        spec_ts_delta(w) >= 0,
        ({
            let aw = 60 * (c.target_block_time as int);
            let ts_raw = spec_ts_delta(w);
            let ts: int = if ts_raw == 0 {
                1
            } else {
                ts_raw
            };
            let adj = spec_clamp(spec_damp(ts, aw, c.damp_factor as int), aw, c.clamp_factor as int);
            &&& 1 <= adj
            &&& adj <= aw * (c.clamp_factor as int)
            &&& adj * (c.clamp_factor as int) >= aw
            &&& spec_retarget(w, c) == ({
                let raw = (d as int) * aw / adj;
                if raw > c.max_difficulty {
                    c.max_difficulty as int
                } else if raw < c.min_difficulty {
                    c.min_difficulty as int
                } else {
                    raw
                }
            })
        }),
{
    lemma_diff_sum_const(w, d);
    lemma_ts_delta_nonneg(w);
    let aw = 60 * (c.target_block_time as int);
    let dd = c.damp_factor as int;
    let cf = c.clamp_factor as int;
    let ts_raw = spec_ts_delta(w);
    let ts: int = if ts_raw == 0 {
        1
    } else {
        ts_raw
    };
    assert(ts >= 1);
    let num = ts + (dd - 1) * aw;
    let damped = num / dd;
    let adj = spec_clamp(damped, aw, cf);
    lemma_adj_ts_positive(ts, aw, c);

    // The floor on the difficulty sum is inactive: 60 d is at least d.
    assert(spec_diff_sum(w) >= c.min_difficulty);

    // adj is at most aw * cf: both arms of the max are.
    lemma_div_is_ordered_by_denominator(aw, 1, cf);
    lemma_div_basics(aw);
    assert(aw <= aw * cf) by (nonlinear_arith)
        requires
            cf >= 1,
            aw >= 0,
    ;

    // adj * cf covers aw, whichever arm of the clamp won.
    assert((dd - 1) * aw >= dd - 1) by (nonlinear_arith)
        requires
            dd >= 2,
            aw >= 1,
    ;
    lemma_fundamental_div_mod(num, dd);
    lemma_mod_bound(num, dd);
    assert(dd * damped >= num - (dd - 1));
    assert(2 + 2 * (dd - 1) * (aw - 1) - dd * aw == (dd - 2) * (aw - 2)) by (nonlinear_arith);
    assert((dd - 2) * (aw - 2) >= 0) by (nonlinear_arith)
        requires
            dd >= 2,
            aw >= 2,
    ;
    assert(num - (dd - 1) >= 1 + (dd - 1) * (aw - 1)) by (nonlinear_arith)
        requires
            ts >= 1,
            num == ts + (dd - 1) * aw,
    ;
    assert(dd * (2 * damped) >= dd * aw) by (nonlinear_arith)
        requires
            dd * damped >= num - (dd - 1),
            2 + 2 * (dd - 1) * (aw - 1) >= dd * aw,
            num - (dd - 1) >= 1 + (dd - 1) * (aw - 1),
    ;
    assert(2 * damped >= aw) by (nonlinear_arith)
        requires
            dd * (2 * damped) >= dd * aw,
            dd >= 1,
    ;
    assert(damped * cf >= damped * 2) by (nonlinear_arith)
        requires
            cf >= 2,
            damped >= 0,
    ;
    assert(damped * cf >= aw);
    if damped < aw * cf {
        assert(adj >= damped);
        assert(adj * cf >= damped * cf) by (nonlinear_arith)
            requires
                adj >= damped,
                cf >= 0,
        ;
    } else {
        assert(adj >= aw * cf);
        assert(adj * cf >= (aw * cf) * cf) by (nonlinear_arith)
            requires
                adj >= aw * cf,
                cf >= 0,
        ;
        assert((aw * cf) * cf >= aw) by (nonlinear_arith)
            requires
                cf >= 1,
                aw >= 0,
        ;
    }
    assert(adj * cf >= aw);

    // The retarget formula on this window, with the sum written as d * aw.
    assert((60 * (d as int)) * (c.target_block_time as int) == (d as int) * (60 * (
    c.target_block_time as int))) by (nonlinear_arith);
}

/// Retarget equilibrium: when the window's observed time equals the target
/// duration of a full window and every sample carries the same in-range
/// difficulty `d`, the retarget returns exactly `d`.
pub proof fn lemma_retarget_equilibrium(w: Seq<DifficultyAndTimestamp>, c: Config, d: u128)
    requires
        config_wf(c),
        w.len() == 60,
        forall|i: int| 0 <= i < w.len() ==> (#[trigger] w[i]).difficulty == d,
        c.min_difficulty <= d <= c.max_difficulty,
        spec_ts_delta(w) == 60 * (c.target_block_time as int),
    ensures
        spec_retarget(w, c) == d,
{
    lemma_retarget_setup(w, c, d);
    let aw = 60 * (c.target_block_time as int);
    let dd = c.damp_factor as int;
    let cf = c.clamp_factor as int;
    assert(aw + (dd - 1) * aw == aw * dd) by (nonlinear_arith);
    lemma_div_by_multiple(aw, dd);
    assert(spec_damp(aw, aw, dd) == aw);
    // The clamp leaves the goal itself untouched.
    lemma_div_is_ordered_by_denominator(aw, 1, cf);
    lemma_div_basics(aw);
    assert(aw < aw * cf) by (nonlinear_arith)
        requires
            cf >= 2,
            aw >= 1,
    ;
    assert(spec_clamp(aw, aw, cf) == aw);
    lemma_div_by_multiple(d as int, aw);
    assert((d as int) * aw / aw == d);
}

/// Retarget monotonicity: with every sample at the same in-range difficulty
/// `d`, a window observed faster than the target raises the difficulty, and a
/// window observed slower lowers it.
pub proof fn lemma_retarget_monotonic(w: Seq<DifficultyAndTimestamp>, c: Config, d: u128)
    requires
        config_wf(c),
        w.len() == 60,
        forall|i: int| 0 <= i < w.len() ==> (#[trigger] w[i]).difficulty == d,
        c.min_difficulty <= d <= c.max_difficulty,
    ensures
        spec_ts_delta(w) < 60 * (c.target_block_time as int) ==> spec_retarget(w, c) >= d,
        spec_ts_delta(w) > 60 * (c.target_block_time as int) ==> spec_retarget(w, c) <= d,
{
    lemma_retarget_setup(w, c, d);
    let aw = 60 * (c.target_block_time as int);
    let dd = c.damp_factor as int;
    let cf = c.clamp_factor as int;
    let ts_raw = spec_ts_delta(w);
    let ts: int = if ts_raw == 0 {
        1
    } else {
        ts_raw
    };
    let num = ts + (dd - 1) * aw;
    let damped = num / dd;
    let adj = spec_clamp(damped, aw, cf);
    lemma_div_is_ordered_by_denominator(aw, 1, cf);
    lemma_div_basics(aw);

    if ts_raw < aw {
        // The observed time is short of the goal, so the clamped interval
        // stays below it and the quotient can only grow.
        assert(ts <= aw - 1);
        assert(num <= aw - 1 + (dd - 1) * aw);
        assert(aw - 1 + (dd - 1) * aw == (aw - 1) * dd + (dd - 1)) by (nonlinear_arith);
        lemma_fundamental_div_mod_converse((aw - 1) * dd + (dd - 1), dd, aw - 1, dd - 1);
        lemma_div_is_ordered(num, (aw - 1) * dd + (dd - 1), dd);
        assert(damped <= aw - 1);
        assert(aw <= aw * cf) by (nonlinear_arith)
            requires
                cf >= 1,
                aw >= 0,
        ;
        assert(adj <= aw);
        lemma_div_is_ordered_by_denominator((d as int) * aw, adj, aw);
        lemma_div_by_multiple(d as int, aw);
        assert((d as int) * aw / adj >= d);
    }
    if ts_raw > aw {
        // The observed time exceeds the goal, so the clamped interval stays
        // at or above it and the quotient can only shrink.
        assert(ts == ts_raw);
        assert(num >= aw + 1 + (dd - 1) * aw);
        assert(aw + 1 + (dd - 1) * aw == aw * dd + 1) by (nonlinear_arith);
        lemma_fundamental_div_mod_converse(aw * dd + 1, dd, aw, 1);
        lemma_div_is_ordered(aw * dd + 1, num, dd);
        assert(damped >= aw);
        assert(aw <= aw * cf) by (nonlinear_arith)
            requires
                cf >= 1,
                aw >= 0,
        ;
        assert(adj >= aw);
        lemma_div_is_ordered_by_denominator((d as int) * aw, aw, adj);
        lemma_div_by_multiple(d as int, aw);
        assert((d as int) * aw / adj <= d);
    }
}

/// Clamp bound: with every sample at the same in-range difficulty `d`, one
/// retarget step stays within a factor of the clamp factor around `d`, to
/// within integer-division rounding.
pub proof fn lemma_retarget_clamp_bound(w: Seq<DifficultyAndTimestamp>, c: Config, d: u128)
    requires
        config_wf(c),
        w.len() == 60,
        forall|i: int| 0 <= i < w.len() ==> (#[trigger] w[i]).difficulty == d,
        c.min_difficulty <= d <= c.max_difficulty,
    ensures
        spec_retarget(w, c) >= (d as int) / (c.clamp_factor as int),
        spec_retarget(w, c) <= (d as int) * (c.clamp_factor as int),
{
    lemma_retarget_setup(w, c, d);
    let aw = 60 * (c.target_block_time as int);
    let cf = c.clamp_factor as int;
    let ts_raw = spec_ts_delta(w);
    let ts: int = if ts_raw == 0 {
        1
    } else {
        ts_raw
    };
    let adj = spec_clamp(spec_damp(ts, aw, c.damp_factor as int), aw, cf);
    let raw = (d as int) * aw / adj;

    // Upper bound: adj * cf covers aw, so the quotient is at most d * cf.
    assert((d as int) * aw <= (d as int) * (adj * cf)) by (nonlinear_arith)
        requires
            aw <= adj * cf,
            d >= 0,
    ;
    assert((d as int) * (adj * cf) == ((d as int) * cf) * adj) by (nonlinear_arith);
    lemma_div_is_ordered((d as int) * aw, ((d as int) * cf) * adj, adj);
    lemma_div_by_multiple((d as int) * cf, adj);
    assert(raw <= (d as int) * cf);

    // Lower bound: adj is at most aw * cf, so the quotient is at least
    // (d * aw) / (aw * cf), which is exactly d / cf.
    lemma_div_is_ordered_by_denominator((d as int) * aw, adj, aw * cf);
    let q = (d as int) / cf;
    let r = (d as int) % cf;
    lemma_fundamental_div_mod(d as int, cf);
    lemma_mod_bound(d as int, cf);
    lemma_div_pos_is_pos(d as int, cf);
    assert((d as int) * aw == q * (cf * aw) + r * aw) by (nonlinear_arith)
        requires
            d == cf * q + r,
    ;
    assert(r * aw < cf * aw) by (nonlinear_arith)
        requires
            r < cf,
            aw >= 1,
    ;
    assert(r * aw >= 0) by (nonlinear_arith)
        requires
            r >= 0,
            aw >= 0,
    ;
    lemma_fundamental_div_mod_converse((d as int) * aw, cf * aw, q, r * aw);
    assert(cf * aw == aw * cf) by (nonlinear_arith);
    assert((d as int) * aw / (aw * cf) == q);
    assert(raw >= q);

    // The final range clamp keeps the result between d / cf and d * cf.
    lemma_div_is_ordered_by_denominator(d as int, 1, cf);
    lemma_div_basics(d as int);
    assert((d as int) <= (d as int) * cf) by (nonlinear_arith)
        requires
            cf >= 1,
            d >= 0,
    ;
}

// The laws of the transaction validator, stated over its mathematical
// definition. That the reward pool grows by exactly the fee is part of
// `spend`'s own contract.

/// The summed value of a list of outputs.
pub open spec fn sum_output_values(s: Seq<TransactionOutput>) -> int
    decreases s.len(),
{
    if s.len() == 0 {
        0
    } else {
        sum_output_values(s.drop_first()) + s[0].value
    }
}

/// The summed value of the UTXOs a list of inputs spends, all of which must be
/// in the mapping.
pub open spec fn sum_input_values(
    m: Map<Seq<u8>, TransactionOutput>,
    s: Seq<TransactionInput>,
) -> int
    decreases s.len(),
{
    if s.len() == 0 {
        0
    } else {
        sum_input_values(m, s.drop_first()) + m[s[0].outpoint@].value
    }
}

/// A completed output walk accumulates exactly the outputs' summed value.
proof fn lemma_scan_outputs_total(
    m: Map<Seq<u8>, TransactionOutput>,
    tx: Transaction,
    s: Seq<TransactionOutput>,
    index: u64,
    total: u128,
    provides: Seq<Seq<u8>>,
)
    ensures
        scan_outputs(m, tx, s, index, total, provides) matches OutScan::Done { total: t, .. }
            ==> t == total + sum_output_values(s),
    decreases s.len(),
{
    if s.len() == 0 {
    } else if s[0].value == 0 {
    } else {
        let h = spec_output_hash(tx, index as nat);
        if !m.contains_key(h) && total + s[0].value <= u128::MAX && index != u64::MAX {
            lemma_scan_outputs_total(
                m,
                tx,
                s.drop_first(),
                (index + 1) as u64,
                (total + s[0].value) as u128,
                provides.push(h),
            );
        }
    }
}

/// A walk of the inputs never forgets a recorded missing outpoint.
proof fn lemma_scan_inputs_missing_grows(
    m: Map<Seq<u8>, TransactionOutput>,
    payload: Seq<u8>,
    s: Seq<TransactionInput>,
    total: u128,
    missing: Seq<Seq<u8>>,
)
    ensures
        scan_inputs(m, payload, s, total, missing) matches InScan::Done { missing: mf, .. }
            ==> mf.len() >= missing.len(),
    decreases s.len(),
{
    if s.len() == 0 {
    } else if m.contains_key(s[0].outpoint@) {
        let utxo = m[s[0].outpoint@];
        if sr25519_ok(s[0].sigscript@, payload, utxo.pubkey@) && total + utxo.value
            <= u128::MAX {
            lemma_scan_inputs_missing_grows(
                m,
                payload,
                s.drop_first(),
                (total + utxo.value) as u128,
                missing,
            );
        }
    } else {
        lemma_scan_inputs_missing_grows(
            m,
            payload,
            s.drop_first(),
            total,
            missing.push(s[0].outpoint@),
        );
    }
}

/// A completed input walk that recorded nothing as missing found every
/// outpoint in the mapping and accumulated exactly their summed value.
proof fn lemma_scan_inputs_total(
    m: Map<Seq<u8>, TransactionOutput>,
    payload: Seq<u8>,
    s: Seq<TransactionInput>,
    total: u128,
    missing: Seq<Seq<u8>>,
)
    ensures
        scan_inputs(m, payload, s, total, missing) matches InScan::Done { total: t, missing: mf }
            ==> (mf.len() == missing.len() ==> t == total + sum_input_values(m, s)),
    decreases s.len(),
{
    if s.len() == 0 {
    } else if m.contains_key(s[0].outpoint@) {
        let utxo = m[s[0].outpoint@];
        if sr25519_ok(s[0].sigscript@, payload, utxo.pubkey@) && total + utxo.value
            <= u128::MAX {
            lemma_scan_inputs_total(
                m,
                payload,
                s.drop_first(),
                (total + utxo.value) as u128,
                missing,
            );
        }
    } else {
        lemma_scan_inputs_missing_grows(
            m,
            payload,
            s.drop_first(),
            total,
            missing.push(s[0].outpoint@),
        );
    }
}

/// Conservation: a transaction that validates with no missing input pays a
/// fee of exactly the summed value of the UTXOs it spends minus the summed
/// value of the outputs it creates, never negative; its priority is that fee
/// truncated to 64 bits, and `spend`'s own contract grows the reward pool by
/// exactly the fee.
pub proof fn lemma_conservation(m: Map<Seq<u8>, TransactionOutput>, tx: Transaction)
    ensures
        spec_validate(m, tx) matches Ok(model) ==> (model.required.len() == 0 ==> {
            &&& model.total_input == sum_input_values(m, tx.inputs@)
            &&& model.total_output == sum_output_values(tx.outputs@)
            &&& model.total_output <= model.total_input
            &&& model.fee == model.total_input - model.total_output
            &&& model.priority == model.fee as u64
        }),
{
    lemma_scan_inputs_total(m, spec_signing_payload(tx), tx.inputs@, 0, Seq::empty());
    lemma_scan_outputs_total(m, tx, tx.outputs@, 0, 0, Seq::empty());
}

/// No output hash a walked prefix provides is already in the store, given that
/// none of the already-collected ones is.
proof fn lemma_scan_outputs_fresh(
    m: Map<Seq<u8>, TransactionOutput>,
    tx: Transaction,
    s: Seq<TransactionOutput>,
    index: u64,
    total: u128,
    provides: Seq<Seq<u8>>,
)
    requires
        forall|k: Seq<u8>| provides.contains(k) ==> !m.contains_key(k),
    ensures
        scan_outputs(m, tx, s, index, total, provides) matches OutScan::Done { provides: p, .. }
            ==> forall|k: Seq<u8>| p.contains(k) ==> !m.contains_key(k),
    decreases s.len(),
{
    if s.len() == 0 {
    } else if s[0].value == 0 {
    } else {
        let h = spec_output_hash(tx, index as nat);
        if m.contains_key(h) {
        } else if total + s[0].value > u128::MAX {
        } else if index == u64::MAX {
        } else {
            assert forall|k: Seq<u8>| provides.push(h).contains(k) implies !m.contains_key(k) by {
                let idx = choose|idx: int|
                    0 <= idx < provides.push(h).len() && provides.push(h)[idx] == k;
                if idx < provides.len() {
                    assert(provides[idx] == k);
                    assert(provides.contains(k));
                } else {
                    assert(k == h);
                }
            };
            lemma_scan_outputs_fresh(
                m,
                tx,
                s.drop_first(),
                (index + 1) as u64,
                (total + s[0].value) as u128,
                provides.push(h),
            );
        }
    }
}

/// No duplicate UTXOs: every output hash a validated transaction provides is
/// absent from the UTXO set, so applying it cannot overwrite a live UTXO.
pub proof fn lemma_no_duplicate_utxos(m: Map<Seq<u8>, TransactionOutput>, tx: Transaction)
    ensures
        spec_validate(m, tx) matches Ok(model) ==> forall|k: Seq<u8>|
            model.provides.contains(k) ==> !m.contains_key(k),
{
    if spec_validate(m, tx) is Ok {
        assert(forall|k: Seq<u8>| !Seq::<Seq<u8>>::empty().contains(k));
        lemma_scan_outputs_fresh(m, tx, tx.outputs@, 0, 0, Seq::empty());
    }
}

/// Every input of a walked list whose outpoint is in the store carries a valid
/// signature, provided the walk ran to completion.
proof fn lemma_scan_inputs_sigs(
    m: Map<Seq<u8>, TransactionOutput>,
    payload: Seq<u8>,
    s: Seq<TransactionInput>,
    total: u128,
    missing: Seq<Seq<u8>>,
)
    requires
        scan_inputs(m, payload, s, total, missing) is Done,
    ensures
        forall|i: int|
            0 <= i < s.len() && m.contains_key((#[trigger] s[i]).outpoint@) ==> sr25519_ok(
                s[i].sigscript@,
                payload,
                m[s[i].outpoint@].pubkey@,
            ),
    decreases s.len(),
{
    if s.len() == 0 {
    } else {
        if m.contains_key(s[0].outpoint@) {
            let utxo = m[s[0].outpoint@];
            lemma_scan_inputs_sigs(
                m,
                payload,
                s.drop_first(),
                (total + utxo.value) as u128,
                missing,
            );
        } else {
            lemma_scan_inputs_sigs(m, payload, s.drop_first(), total, missing.push(s[0].outpoint@));
        }
        assert forall|i: int|
            0 <= i < s.len() && m.contains_key((#[trigger] s[i]).outpoint@) implies sr25519_ok(
            s[i].sigscript@,
            payload,
            m[s[i].outpoint@].pubkey@,
        ) by {
            if i > 0 {
                assert(s[i] == s.drop_first()[i - 1]);
            }
        };
    }
}

/// Signature necessity: a transaction validates only if every input whose
/// outpoint is in the UTXO set carries a signature over the signing payload
/// that verifies under that UTXO's public key. Toggling any sigscript to an
/// invalid value therefore makes validation fail.
pub proof fn lemma_signature_necessity(m: Map<Seq<u8>, TransactionOutput>, tx: Transaction)
    ensures
        spec_validate(m, tx) is Ok ==> forall|i: int|
            0 <= i < tx.inputs@.len() && m.contains_key((#[trigger] tx.inputs@[i]).outpoint@)
                ==> sr25519_ok(
                tx.inputs@[i].sigscript@,
                spec_signing_payload(tx),
                m[tx.inputs@[i].outpoint@].pubkey@,
            ),
{
    if spec_validate(m, tx) is Ok {
        lemma_scan_inputs_sigs(m, spec_signing_payload(tx), tx.inputs@, 0, Seq::empty());
    }
}

/// A completed output walk appends exactly the output hashes, one per output,
/// in output order.
proof fn lemma_scan_outputs_provides(
    m: Map<Seq<u8>, TransactionOutput>,
    tx: Transaction,
    s: Seq<TransactionOutput>,
    index: u64,
    total: u128,
    provides: Seq<Seq<u8>>,
)
    requires
        index + s.len() <= u64::MAX,
    ensures
        scan_outputs(m, tx, s, index, total, provides) matches OutScan::Done { provides: p, .. }
            ==> {
            &&& p.len() == provides.len() + s.len()
            &&& (forall|k: int| 0 <= k < provides.len() ==> p[k] == provides[k])
            &&& (forall|k: int|
                0 <= k < s.len() ==> #[trigger] p[provides.len() + k] == spec_output_hash(
                    tx,
                    (index + k) as nat,
                ))
        },
    decreases s.len(),
{
    if s.len() == 0 {
    } else if s[0].value == 0 {
    } else {
        let h = spec_output_hash(tx, index as nat);
        if !m.contains_key(h) && total + s[0].value <= u128::MAX && index != u64::MAX {
            lemma_scan_outputs_provides(
                m,
                tx,
                s.drop_first(),
                (index + 1) as u64,
                (total + s[0].value) as u128,
                provides.push(h),
            );
            match scan_outputs(m, tx, s, index, total, provides) {
                OutScan::Done { provides: p, .. } => {
                    assert forall|k: int| 0 <= k < s.len() implies #[trigger] p[provides.len()
                        + k] == spec_output_hash(tx, (index + k) as nat) by {
                        if k == 0 {
                            assert(p[provides.len() as int] == provides.push(h)[provides.len() as int]);
                        } else {
                            assert(p[(provides.push(h).len()) + (k - 1)] == spec_output_hash(
                                tx,
                                ((index + 1) + (k - 1)) as nat,
                            ));
                        }
                    };
                    assert forall|k: int| 0 <= k < provides.len() implies p[k] == provides[k] by {
                        assert(p[k] == provides.push(h)[k]);
                    };
                },
                _ => {},
            }
        }
    }
}

/// The descriptor of a validated transaction provides exactly the hash of
/// each of its outputs, in output order.
pub proof fn lemma_provides_are_output_hashes(m: Map<Seq<u8>, TransactionOutput>, tx: Transaction)
    requires
        tx.outputs@.len() <= u64::MAX,
    ensures
        spec_validate(m, tx) matches Ok(model) ==> {
            &&& model.provides.len() == tx.outputs@.len()
            &&& forall|k: int|
                0 <= k < tx.outputs@.len() ==> #[trigger] model.provides[k] == spec_output_hash(
                    tx,
                    k as nat,
                )
        },
{
    if spec_validate(m, tx) is Ok {
        lemma_scan_outputs_provides(m, tx, tx.outputs@, 0, 0, Seq::empty());
        match spec_validate(m, tx) {
            Ok(model) => {
                assert forall|k: int| 0 <= k < tx.outputs@.len() implies #[trigger] model.provides[k]
                    == spec_output_hash(tx, k as nat) by {
                    assert(model.provides[Seq::<Seq<u8>>::empty().len() + k] == spec_output_hash(
                        tx,
                        (0 + k) as nat,
                    ));
                };
            },
            _ => {},
        }
    }
}

/// A completed input walk records as missing exactly the outpoints absent
/// from the mapping, in input order, after whatever it was handed.
proof fn lemma_scan_inputs_missing(
    m: Map<Seq<u8>, TransactionOutput>,
    payload: Seq<u8>,
    s: Seq<TransactionInput>,
    total: u128,
    missing: Seq<Seq<u8>>,
)
    ensures
        scan_inputs(m, payload, s, total, missing) matches InScan::Done { missing: mf, .. }
            ==> mf == missing + spec_missing_utxos(m, s),
    decreases s.len(),
{
    if s.len() == 0 {
        assert(missing + spec_missing_utxos(m, s) =~= missing);
    } else if m.contains_key(s[0].outpoint@) {
        let utxo = m[s[0].outpoint@];
        if sr25519_ok(s[0].sigscript@, payload, utxo.pubkey@) && total + utxo.value
            <= u128::MAX {
            lemma_scan_inputs_missing(
                m,
                payload,
                s.drop_first(),
                (total + utxo.value) as u128,
                missing,
            );
        }
    } else {
        let k0 = s[0].outpoint@;
        lemma_scan_inputs_missing(m, payload, s.drop_first(), total, missing.push(k0));
        assert(missing.push(k0) + spec_missing_utxos(m, s.drop_first()) =~= missing + (seq![k0]
            + spec_missing_utxos(m, s.drop_first())));
    }
}

/// The descriptor of a validated transaction requires exactly the outpoints
/// that `get_missing_utxos` reports absent, in input order: the validator and
/// the pool helper agree.
pub proof fn lemma_required_are_missing_utxos(m: Map<Seq<u8>, TransactionOutput>, tx: Transaction)
    ensures
        spec_validate(m, tx) matches Ok(model) ==> model.required == spec_missing_utxos(
            m,
            tx.inputs@,
        ),
{
    if spec_validate(m, tx) is Ok {
        lemma_scan_inputs_missing(m, spec_signing_payload(tx), tx.inputs@, 0, Seq::empty());
        assert(Seq::<Seq<u8>>::empty() + spec_missing_utxos(m, tx.inputs@) =~= spec_missing_utxos(
            m,
            tx.inputs@,
        ));
    }
}

/// Whether some input of the list spends the UTXO stored under `k`.
pub open spec fn spends_outpoint(s: Seq<TransactionInput>, k: Seq<u8>) -> bool {
    exists|i: int| 0 <= i < s.len() && (#[trigger] s[i]).outpoint@ == k
}

/// Whether some output of the transaction, from index `idx` on, is stored
/// under `k`.
pub open spec fn creates_hash(tx: Transaction, idx: nat, k: Seq<u8>) -> bool {
    exists|i: nat| idx <= i < tx.outputs@.len() && #[trigger] spec_output_hash(tx, i) == k
}

proof fn lemma_remove_inputs_frame(m: Map<Seq<u8>, TransactionOutput>, s: Seq<TransactionInput>)
    ensures
        forall|k: Seq<u8>|
            #[trigger] spends_outpoint(s, k) ==> !spec_remove_inputs(m, s).contains_key(k),
        forall|k: Seq<u8>|
            !(#[trigger] spends_outpoint(s, k)) ==> spec_remove_inputs(m, s).contains_key(k)
                == m.contains_key(k) && (m.contains_key(k) ==> spec_remove_inputs(m, s)[k]
                == m[k]),
    decreases s.len(),
{
    if s.len() > 0 {
        let k0 = s[0].outpoint@;
        let rest = s.drop_first();
        lemma_remove_inputs_frame(m.remove(k0), rest);
        assert forall|k: Seq<u8>| #[trigger] spends_outpoint(s, k) implies !spec_remove_inputs(
            m,
            s,
        ).contains_key(k) by {
            if !spends_outpoint(rest, k) {
                let i = choose|i: int| 0 <= i < s.len() && (#[trigger] s[i]).outpoint@ == k;
                if i > 0 {
                    assert(rest[i - 1] == s[i]);
                    assert(spends_outpoint(rest, k));
                }
                assert(k == k0);
            }
        };
        assert forall|k: Seq<u8>| !(#[trigger] spends_outpoint(s, k)) implies spec_remove_inputs(
            m,
            s,
        ).contains_key(k) == m.contains_key(k) && (m.contains_key(k) ==> spec_remove_inputs(
            m,
            s,
        )[k] == m[k]) by {
            assert(s[0].outpoint@ != k);
            if spends_outpoint(rest, k) {
                let i = choose|i: int| 0 <= i < rest.len() && (#[trigger] rest[i]).outpoint@ == k;
                assert(s[i + 1] == rest[i]);
                assert(spends_outpoint(s, k));
            }
        };
    }
}

proof fn lemma_insert_outputs_frame(m: Map<Seq<u8>, TransactionOutput>, tx: Transaction, idx: nat)
    ensures
        forall|k: Seq<u8>|
            #[trigger] creates_hash(tx, idx, k) ==> spec_insert_outputs(m, tx, idx).contains_key(
                k,
            ),
        forall|k: Seq<u8>|
            !(#[trigger] creates_hash(tx, idx, k)) ==> spec_insert_outputs(
                m,
                tx,
                idx,
            ).contains_key(k) == m.contains_key(k) && (m.contains_key(k) ==> spec_insert_outputs(
                m,
                tx,
                idx,
            )[k] == m[k]),
    decreases tx.outputs@.len() - idx,
{
    if idx < tx.outputs@.len() {
        let h = spec_output_hash(tx, idx);
        lemma_insert_outputs_frame(m.insert(h, tx.outputs@[idx as int]), tx, idx + 1);
        assert forall|k: Seq<u8>| #[trigger] creates_hash(tx, idx, k) implies spec_insert_outputs(
            m,
            tx,
            idx,
        ).contains_key(k) by {
            if !creates_hash(tx, idx + 1, k) {
                let i = choose|i: nat|
                    idx <= i < tx.outputs@.len() && #[trigger] spec_output_hash(tx, i) == k;
                assert(i == idx);
                assert(k == h);
                assert(creates_hash(tx, idx + 1, k) || spec_insert_outputs(
                    m.insert(h, tx.outputs@[idx as int]),
                    tx,
                    idx + 1,
                ).contains_key(k));
            }
        };
        assert forall|k: Seq<u8>| !(#[trigger] creates_hash(tx, idx, k))
            implies spec_insert_outputs(m, tx, idx).contains_key(k) == m.contains_key(k) && (
        m.contains_key(k) ==> spec_insert_outputs(m, tx, idx)[k] == m[k]) by {
            assert(spec_output_hash(tx, idx) != k);
            if creates_hash(tx, idx + 1, k) {
                assert(creates_hash(tx, idx, k));
            }
        };
    }
}

/// The UTXO lifecycle across one applied transaction: every output hash the
/// transaction creates is live afterwards; every outpoint it spends (and does
/// not recreate) is gone; every other entry of the UTXO set is untouched.
pub proof fn lemma_apply_frame(m: Map<Seq<u8>, TransactionOutput>, tx: Transaction)
    ensures
        forall|k: Seq<u8>|
            #[trigger] creates_hash(tx, 0, k) ==> spec_apply(m, tx).contains_key(k),
        forall|k: Seq<u8>|
            !creates_hash(tx, 0, k) && #[trigger] spends_outpoint(tx.inputs@, k) ==> !spec_apply(
                m,
                tx,
            ).contains_key(k),
        forall|k: Seq<u8>|
            !creates_hash(tx, 0, k) && !spends_outpoint(tx.inputs@, k) ==> #[trigger] spec_apply(
                m,
                tx,
            ).contains_key(k) == m.contains_key(k) && (m.contains_key(k) ==> spec_apply(m, tx)[k]
                == m[k]),
{
    lemma_remove_inputs_frame(m, tx.inputs@);
    lemma_insert_outputs_frame(spec_remove_inputs(m, tx.inputs@), tx, 0);
}

/// Stripped input encodings agree whenever the outpoints agree, whatever the
/// sigscripts hold.
proof fn lemma_encode_stripped_eq(a: Seq<TransactionInput>, b: Seq<TransactionInput>)
    requires
        a.len() == b.len(),
        forall|i: int| 0 <= i < a.len() ==> (#[trigger] a[i]).outpoint@ == b[i].outpoint@,
    ensures
        crate::codec::spec_encode_inputs_stripped(a) == crate::codec::spec_encode_inputs_stripped(
            b,
        ),
    decreases a.len(),
{
    if a.len() > 0 {
        lemma_encode_stripped_eq(a.drop_last(), b.drop_last());
        assert(a.last().outpoint@ == b[a.len() - 1].outpoint@);
        assert(crate::codec::spec_encode_input_stripped(a.last())
            == crate::codec::spec_encode_input_stripped(b.last()));
    }
}

/// Hash stability: the signing payload and every output hash depend only on
/// the inputs' outpoints and on the outputs, never on the sigscripts. A
/// transaction re-signed with any signatures keeps its output hashes.
pub proof fn lemma_hash_stability(t1: Transaction, t2: Transaction, index: nat)
    requires
        t1.inputs@.len() == t2.inputs@.len(),
        forall|i: int|
            0 <= i < t1.inputs@.len() ==> (#[trigger] t1.inputs@[i]).outpoint@
                == t2.inputs@[i].outpoint@,
        t1.outputs@ == t2.outputs@,
    ensures
        spec_signing_payload(t1) == spec_signing_payload(t2),
        spec_output_hash(t1, index) == spec_output_hash(t2, index),
{
    lemma_encode_stripped_eq(t1.inputs@, t2.inputs@);
}

} // verus!
