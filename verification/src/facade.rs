//! Running OpenQASM text in one call. The state vector is computed
//! elsewhere; what is decided here is how the text reads, which qubits
//! exist, and how the basis states that the simulator sampled are reported.

use vstd::prelude::*;
use vstd::string::*;
use crate::api::SimError;
use crate::circuit::Circuit;
use crate::qasm::read_qasm;

verus! {

/// The bit of qubit `qubit` in the basis state `outcome`.
pub open spec fn bit_of(outcome: usize, qubit: usize) -> u8 {
    if qubit < 64 {
        (((outcome as u64) >> (qubit as u64)) & 1) as u8
    } else {
        0
    }
}

/// Measures one qubit of the circuit that `qasm` writes. `outcome` is the
/// basis state that measuring every qubit gave. Returns the bit of `qubit`
/// in it; fails with `Qubit` exactly where the circuit has no such qubit.
pub fn run_qasm_measure(qasm: &str, qubit: usize, outcome: usize) -> (r: Result<u8, SimError>)
    ensures
        match r {
            Ok(bit) => qubit < read_qasm(qasm@).num_qubits && bit == bit_of(outcome, qubit),
            Err(SimError::Qubit(index)) => index == qubit && qubit >= read_qasm(qasm@).num_qubits,
            Err(_) => false,
        },
{
    let circuit = match Circuit::from_qasm(qasm) {
        Ok(circuit) => circuit,
        Err(e) => {
            return Err(e);
        },
    };
    if qubit >= circuit.num_qubits {
        return Err(SimError::Qubit(qubit));
    }
    if qubit < 64 {
        let bit = ((outcome as u64) >> (qubit as u64)) & 1;
        assert(bit <= 1) by (bit_vector)
            requires
                bit == ((outcome as u64) >> (qubit as u64)) & 1,
        ;
        Ok(bit as u8)
    } else {
        Ok(0)
    }
}

/// The character that writes the binary digit `d`.
pub open spec fn bit_char(d: int) -> char {
    if d == 0 {
        '0'
    } else {
        '1'
    }
}

/// The binary digits of `n`, most significant first, without leading zeros.
pub open spec fn binary(n: nat) -> Seq<char>
    decreases n,
{
    if n < 2 {
        seq![bit_char(n as int)]
    } else {
        binary(n / 2).push(bit_char((n % 2) as int))
    }
}

/// `n` zeros.
pub open spec fn zeros(n: nat) -> Seq<char> {
    Seq::new(n, |i: int| '0')
}

/// The basis state `outcome` as a string of bits, with zeros in front up to
/// `width` characters.
pub open spec fn bitstring(outcome: usize, width: usize) -> Seq<char> {
    let digits = binary(outcome as nat);
    if digits.len() < width {
        zeros((width - digits.len()) as nat) + digits
    } else {
        digits
    }
}

/// The counts after one more sample: the count of its bitstring goes up by
/// one; a bitstring that was not seen before comes last, with count 1.
pub open spec fn counted(counts: Seq<(Seq<char>, u32)>, key: Seq<char>) -> Seq<(Seq<char>, u32)> {
    if exists|i: int| 0 <= i < counts.len() && (#[trigger] counts[i]).0 == key {
        let i = choose|i: int| 0 <= i < counts.len() && (#[trigger] counts[i]).0 == key;
        counts.update(i, (key, (counts[i].1 + 1) as u32))
    } else {
        counts.push((key, 1))
    }
}

/// The counts of the first `n` samples.
pub open spec fn tally(samples: Seq<usize>, width: usize, n: nat) -> Seq<(Seq<char>, u32)>
    decreases n,
{
    if n == 0 {
        Seq::empty()
    } else {
        counted(tally(samples, width, (n - 1) as nat), bitstring(samples[n - 1], width))
    }
}

/// The views of a list of counts.
pub open spec fn count_views(counts: Seq<(String, u32)>) -> Seq<(Seq<char>, u32)> {
    Seq::new(counts.len(), |i: int| (counts[i].0@, counts[i].1))
}

/// No bitstring is listed twice.
pub open spec fn distinct_keys(counts: Seq<(Seq<char>, u32)>) -> bool {
    forall|i: int, j: int|
        0 <= i < counts.len() && 0 <= j < counts.len() && (#[trigger] counts[i]).0 == (
        #[trigger] counts[j]).0 ==> i == j
}

/// The counts add up to the number of samples.
pub open spec fn total(counts: Seq<(Seq<char>, u32)>) -> nat
    decreases counts.len(),
{
    if counts.len() == 0 {
        0
    } else {
        total(counts.drop_last()) + counts.last().1 as nat
    }
}

fn push_binary(out: &mut Vec<char>, n: usize)
    ensures
        final(out)@ == old(out)@ + binary(n as nat),
    decreases n,
{
    if n >= 2 {
        push_binary(out, n / 2);
    }
    out.push(if n % 2 == 0 {
        '0'
    } else {
        '1'
    });
    assert(out@ =~= old(out)@ + binary(n as nat));
}

/// The basis state `outcome` as a string of bits, at least `width` long.
pub fn write_bitstring(outcome: usize, width: usize) -> (r: String)
    ensures
        r@ == bitstring(outcome, width),
{
    let mut digits: Vec<char> = Vec::new();
    push_binary(&mut digits, outcome);
    assert(digits@ =~= binary(outcome as nat));
    let mut out = String::new();
    let mut i: usize = digits.len();
    while i < width
        invariant
            i >= digits.len(),
            i <= width || i == digits.len(),
            out@ == zeros((i - digits.len()) as nat),
        decreases width - i,
    {
        out.push('0');
        assert(out@ =~= zeros((i + 1 - digits.len()) as nat));
        i += 1;
    }
    let ghost front = out@;
    let mut k: usize = 0;
    while k < digits.len()
        invariant
            k <= digits.len(),
            out@ == front + digits@.take(k as int),
        decreases digits.len() - k,
    {
        out.push(digits[k]);
        assert(digits@.take(k + 1) =~= digits@.take(k as int).push(digits@[k as int]));
        assert(out@ =~= front + digits@.take(k + 1));
        k += 1;
    }
    assert(digits@.take(digits.len() as int) =~= digits@);
    assert(zeros(0) =~= Seq::<char>::empty());
    assert(Seq::<char>::empty() + digits@ =~= digits@);
    assert(out@ =~= bitstring(outcome, width));
    out
}

/// Counts bitstrings among the samples of the circuit that `qasm` writes.
/// `samples` holds the basis state that each shot gave. Returns every
/// bitstring that was sampled, once, in the order of first appearance, with
/// the number of shots that gave it.
pub fn run_qasm_counts(qasm: &str, samples: &Vec<usize>) -> (r: Result<Vec<(String, u32)>, SimError>)
    requires
        samples.len() <= u32::MAX,
    ensures
        r is Ok,
        count_views(r->Ok_0@) == tally(
            samples@,
            read_qasm(qasm@).num_qubits,
            samples.len() as nat,
        ),
        distinct_keys(count_views(r->Ok_0@)),
        total(count_views(r->Ok_0@)) == samples.len(),
{
    let circuit = match Circuit::from_qasm(qasm) {
        Ok(circuit) => circuit,
        Err(e) => {
            return Err(e);
        },
    };
    let width = circuit.num_qubits;
    let mut counts: Vec<(String, u32)> = Vec::new();
    let mut s: usize = 0;
    assert(count_views(counts@) =~= tally(samples@, width, 0));
    while s < samples.len()
        invariant
            s <= samples.len(),
            samples.len() <= u32::MAX,
            count_views(counts@) == tally(samples@, width, s as nat),
            distinct_keys(count_views(counts@)),
            total(count_views(counts@)) == s,
        decreases samples.len() - s,
    {
        let key = write_bitstring(samples[s], width);
        let ghost before = count_views(counts@);
        let mut at: usize = 0;
        while at < counts.len() && counts[at].0 != key
            invariant
                at <= counts.len(),
                before == count_views(counts@),
                forall|j: int| 0 <= j < at ==> (#[trigger] before[j]).0 != key@,
            decreases counts.len() - at,
        {
            assert(before[at as int].0 == counts[at as int].0@);
            at += 1;
        }
        let found = at < counts.len();
        if found {
            assert(before[at as int].0 == counts[at as int].0@);
            proof {
                let chosen = choose|i: int| 0 <= i < before.len() && (#[trigger] before[i]).0 == key@;
                assert(chosen == at);
                lemma_total_bounds(before, at as int);
            }
            let count = counts[at].1;
            counts[at].1 = count + 1;
            assert(count_views(counts@) =~= before.update(at as int, (key@, (count + 1) as u32)));
            proof {
                lemma_total_update(before, at as int, (key@, (count + 1) as u32));
                assert(distinct_keys(count_views(counts@))) by {
                    let after = count_views(counts@);
                    assert forall|i: int, j: int|
                        0 <= i < after.len() && 0 <= j < after.len() && (#[trigger] after[i]).0 == (
                        #[trigger] after[j]).0 implies i == j by {
                        assert(after[i].0 == before[i].0);
                        assert(after[j].0 == before[j].0);
                    }
                }
            }
        } else {
            counts.push((key, 1));
            assert(count_views(counts@) =~= before.push((key@, 1u32)));
            proof {
                assert(count_views(counts@).drop_last() =~= before);
                assert(distinct_keys(count_views(counts@))) by {
                    let after = count_views(counts@);
                    assert forall|i: int, j: int|
                        0 <= i < after.len() && 0 <= j < after.len() && (#[trigger] after[i]).0 == (
                        #[trigger] after[j]).0 implies i == j by {
                        if i < before.len() {
                            assert(after[i] == before[i]);
                        }
                        if j < before.len() {
                            assert(after[j] == before[j]);
                        }
                    }
                }
            }
        }
        s += 1;
    }
    Ok(counts)
}

/// No single count exceeds the total.
pub proof fn lemma_total_bounds(counts: Seq<(Seq<char>, u32)>, i: int)
    requires
        0 <= i < counts.len(),
    ensures
        counts[i].1 <= total(counts),
    decreases counts.len(),
{
    if i < counts.len() - 1 {
        lemma_total_bounds(counts.drop_last(), i);
    }
}

/// Changing one count changes the total by as much.
pub proof fn lemma_total_update(counts: Seq<(Seq<char>, u32)>, i: int, entry: (Seq<char>, u32))
    requires
        0 <= i < counts.len(),
    ensures
        total(counts.update(i, entry)) == total(counts) - counts[i].1 + entry.1,
    decreases counts.len(),
{
    let after = counts.update(i, entry);
    if i < counts.len() - 1 {
        lemma_total_update(counts.drop_last(), i, entry);
        assert(after.drop_last() =~= counts.drop_last().update(i, entry));
    } else {
        assert(after.drop_last() =~= counts.drop_last());
    }
}

} // verus!
