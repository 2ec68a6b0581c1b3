//! Naming scheme for relocating the running executable into the temp scratch
//! directory before a self-upgrade overwrites its original path.
//!
//! The first candidate is the executable's own file name; if that name is
//! occupied, numeric suffixes `-1`, `-2`, … are appended to the file stem
//! (with the `.exe` extension restored on Windows) until a free name is
//! found. Distinct attempts provably produce distinct names, so retries never
//! collide. The filesystem work itself — removing and recreating the scratch
//! directory and renaming the binary — stays outside the library; it hands in
//! the names the fresh directory already holds.

use vstd::prelude::*;

use crate::bytes::contains_bytes;

verus! {

/// Decimal digits of `n`, most significant first, without leading zeros.
pub open spec fn spec_decimal(n: nat) -> Seq<u8>
    decreases n,
{
    if n < 10 {
        seq![(48 + n) as u8]
    } else {
        spec_decimal(n / 10) + seq![(48 + n % 10) as u8]
    }
}

/// Append the decimal digits of `n` to `out`.
fn push_decimal(out: &mut Vec<u8>, n: u64)
    ensures
        final(out)@ == old(out)@ + spec_decimal(n as nat),
    decreases n,
{
    if n < 10 {
        out.push(48 + n as u8);
        proof {
            assert(out@ =~= old(out)@ + spec_decimal(n as nat));
        }
    } else {
        push_decimal(out, n / 10);
        out.push(48 + (n % 10) as u8);
        proof {
            assert(out@ =~= old(out)@ + spec_decimal(n as nat));
        }
    }
}

/// The name tried at the given attempt: the original file name first, then
/// the stem with `-<attempt>` appended, plus `.exe` on Windows.
pub open spec fn spec_candidate(
    file_name: Seq<u8>,
    stem: Seq<u8>,
    windows: bool,
    attempt: nat,
) -> Seq<u8> {
    if attempt == 0 {
        file_name
    } else {
        let base = stem + seq![45u8] + spec_decimal(attempt);
        if windows {
            base + seq![46u8, 101u8, 120u8, 101u8]
        } else {
            base
        }
    }
}

/// The destination file name tried at the given attempt.
pub fn relocation_candidate(file_name: &[u8], stem: &[u8], windows: bool, attempt: u64) -> (r: Vec<
    u8,
>)
    ensures
        r@ == spec_candidate(file_name@, stem@, windows, attempt as nat),
{
    if attempt == 0 {
        return vstd::slice::slice_to_vec(file_name);
    }
    let mut r = vstd::slice::slice_to_vec(stem);
    r.push(45u8);
    proof {
        assert(r@ =~= stem@ + seq![45u8]);
    }
    push_decimal(&mut r, attempt);
    if windows {
        r.push(46u8);
        r.push(101u8);
        r.push(120u8);
        r.push(101u8);
        proof {
            assert(r@ =~= (stem@ + seq![45u8] + spec_decimal(attempt as nat)) + seq![
                46u8,
                101u8,
                120u8,
                101u8,
            ]);
        }
    }
    r
}

/// Whether `name` is one of the names in `occ`.
pub open spec fn occupied_has(occ: Seq<Seq<u8>>, name: Seq<u8>) -> bool {
    exists|i: int| 0 <= i < occ.len() && occ[i] == name
}

/// Pick the destination name for the relocated executable: the first
/// candidate, in attempt order, that is not among the names the scratch
/// directory already holds. With `n` names occupied, some candidate among the
/// first `n + 1` attempts is examined free or none is; the latter is reported
/// rather than guessed at.
pub fn choose_destination(
    file_name: &[u8],
    stem: &[u8],
    windows: bool,
    occupied: &Vec<Vec<u8>>,
) -> (r: Option<Vec<u8>>)
    requires
        occupied@.len() < usize::MAX,
    ensures
        (r matches Some(name) ==> exists|a: nat|
            a <= occupied@.len() && name@ == #[trigger] spec_candidate(
                file_name@,
                stem@,
                windows,
                a,
            ) && !occupied_has(occupied@.map_values(|v: Vec<u8>| v@), name@) && forall|b: nat|
                b < a ==> occupied_has(
                    occupied@.map_values(|v: Vec<u8>| v@),
                    spec_candidate(file_name@, stem@, windows, b),
                )),
        r is None ==> forall|a: nat|
            a <= occupied@.len() ==> occupied_has(
                occupied@.map_values(|v: Vec<u8>| v@),
                #[trigger] spec_candidate(file_name@, stem@, windows, a),
            ),
{
    let ghost occ = occupied@.map_values(|v: Vec<u8>| v@);
    let mut attempt: usize = 0;
    while attempt <= occupied.len()
        invariant
            occupied@.len() < usize::MAX,
            occ == occupied@.map_values(|v: Vec<u8>| v@),
            attempt <= occupied@.len() + 1,
            forall|b: nat|
                b < attempt ==> occupied_has(
                    occ,
                    #[trigger] spec_candidate(file_name@, stem@, windows, b),
                ),
        decreases occupied@.len() + 1 - attempt,
    {
        let cand = relocation_candidate(file_name, stem, windows, attempt as u64);
        if !contains_bytes(occupied, cand.as_slice()) {
            proof {
                assert(!occupied_has(occ, cand@)) by {
                    assert(forall|i: int| 0 <= i < occ.len() ==> occ[i] == occupied@[i]@);
                }
            }
            return Some(cand);
        }
        proof {
            assert(occupied_has(occ, cand@)) by {
                let i = choose|i: int| 0 <= i < occupied@.len() && occupied@[i]@ == cand@;
                assert(occ[i] == cand@);
            }
        }
        attempt += 1;
    }
    None
}

/// Decimal digit sequences have at least one digit, two from ten upward, and
/// never start with a zero unless the number is zero.
pub proof fn lemma_decimal_shape(n: nat)
    ensures
        spec_decimal(n).len() >= 1,
        n >= 10 ==> spec_decimal(n).len() >= 2,
    decreases n,
{
    if n >= 10 {
        lemma_decimal_shape(n / 10);
    }
}

/// Decimal rendering is injective: distinct numbers have distinct digit
/// sequences.
pub proof fn lemma_decimal_injective(a: nat, b: nat)
    requires
        spec_decimal(a) == spec_decimal(b),
    ensures
        a == b,
    decreases a + b,
{
    lemma_decimal_shape(a);
    lemma_decimal_shape(b);
    if a < 10 && b < 10 {
        assert(spec_decimal(a)[0] == (48 + a) as u8);
        assert(spec_decimal(b)[0] == (48 + b) as u8);
        assert((48 + a) as u8 as nat == 48 + a);
        assert((48 + b) as u8 as nat == 48 + b);
    } else if a >= 10 && b >= 10 {
        let da = spec_decimal(a / 10);
        let db = spec_decimal(b / 10);
        let xa = (48 + a % 10) as u8;
        let xb = (48 + b % 10) as u8;
        assert(spec_decimal(a) == da + seq![xa]);
        assert(spec_decimal(b) == db + seq![xb]);
        assert(da.len() == db.len());
        assert((da + seq![xa])[da.len() as int] == xa);
        assert((db + seq![xb])[db.len() as int] == xb);
        assert(xa == xb);
        assert(a % 10 < 10 && b % 10 < 10);
        assert(48 + a % 10 < 256 && 48 + b % 10 < 256);
        assert(a % 10 == b % 10);
        assert(da =~= (da + seq![xa]).drop_last());
        assert(db =~= (db + seq![xb]).drop_last());
        lemma_decimal_injective(a / 10, b / 10);
        assert(a == 10 * (a / 10) + a % 10);
        assert(b == 10 * (b / 10) + b % 10);
    } else {
        assert(spec_decimal(a).len() != spec_decimal(b).len());
    }
}

/// Distinct suffixed attempts never collide: retrying relocation with a new
/// attempt number always yields a fresh candidate name.
pub proof fn lemma_candidates_distinct(
    file_name: Seq<u8>,
    stem: Seq<u8>,
    windows: bool,
    a: nat,
    b: nat,
)
    requires
        1 <= a,
        1 <= b,
        a != b,
    ensures
        spec_candidate(file_name, stem, windows, a) != spec_candidate(file_name, stem, windows, b),
{
    let ca = spec_candidate(file_name, stem, windows, a);
    let cb = spec_candidate(file_name, stem, windows, b);
    let da = spec_decimal(a);
    let db = spec_decimal(b);
    if ca == cb {
        let base_a = stem + seq![45u8] + da;
        let base_b = stem + seq![45u8] + db;
        if windows {
            assert(ca.len() == stem.len() + 1 + da.len() + 4);
            assert(cb.len() == stem.len() + 1 + db.len() + 4);
        } else {
            assert(ca.len() == stem.len() + 1 + da.len());
            assert(cb.len() == stem.len() + 1 + db.len());
        }
        assert(da.len() == db.len());
        assert forall|k: int| 0 <= k < da.len() implies da[k] == db[k] by {
            assert(base_a[stem.len() + 1 + k] == da[k]);
            assert(base_b[stem.len() + 1 + k] == db[k]);
            if windows {
                assert(ca[stem.len() + 1 + k] == base_a[stem.len() + 1 + k]);
                assert(cb[stem.len() + 1 + k] == base_b[stem.len() + 1 + k]);
            }
        }
        assert(da =~= db);
        lemma_decimal_injective(a, b);
    }
}

} // verus!
