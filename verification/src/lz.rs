//! Copying matches within the output produced so far.
use vstd::prelude::*;

verus! {

/// `out` after a match of `n` bytes at distance `dist`: each byte repeats the one `dist` before
/// it, or is zero where there is none. The output never grows past `cap`.
pub open spec fn copied(out: Seq<u8>, dist: nat, n: nat, cap: nat) -> Seq<u8>
    decreases n,
{
    if n == 0 || out.len() >= cap {
        out
    } else {
        let byte = if dist <= out.len() {
            out[out.len() - dist]
        } else {
            0u8
        };
        copied(out.push(byte), dist, (n - 1) as nat, cap)
    }
}

/// Copies a match byte by byte, so that it may overlap what it produces.
pub fn copy_match(dst: &mut [u8], offset: &mut usize, dist: usize, length: u32)
    requires
        dist >= 1,
        *old(offset) <= old(dst).len(),
    ensures
        final(dst)@.len() == old(dst)@.len(),
        *final(offset) <= final(dst)@.len(),
        final(dst)@.take(*final(offset) as int) == copied(
            old(dst)@.take(*old(offset) as int),
            dist as nat,
            length as nat,
            old(dst)@.len(),
        ),
        final(dst)@.skip(*final(offset) as int) == old(dst)@.skip(*final(offset) as int),
{
    let ghost goal = copied(
        dst@.take(*offset as int),
        dist as nat,
        length as nat,
        dst@.len(),
    );
    let mut left: u32 = length;
    while left > 0 && *offset < dst.len()
        invariant
            dist >= 1,
            dst@.len() == old(dst)@.len(),
            *offset <= dst.len(),
            goal == copied(dst@.take(*offset as int), dist as nat, left as nat, dst@.len()),
            forall|i: int| *offset <= i < dst@.len() ==> dst@[i] == old(dst)@[i],
        decreases left,
    {
        let ghost before = dst@;
        let byte: u8 = if dist <= *offset {
            dst[*offset - dist]
        } else {
            0
        };
        dst[*offset] = byte;
        *offset = *offset + 1;
        left = left - 1;
        assert(dst@.take(*offset as int) =~= before.take(*offset - 1).push(byte));
    }
    assert(dst@.skip(*offset as int) =~= old(dst)@.skip(*offset as int));
}

/// A match of at least one byte makes room for progress, never past the end of the output.
pub proof fn lemma_copied_len(out: Seq<u8>, dist: nat, n: nat, cap: nat)
    ensures
        out.len() <= cap ==> copied(out, dist, n, cap).len() == if out.len() + n < cap {
            out.len() + n
        } else {
            cap
        },
        n > 0 && out.len() < cap ==> copied(out, dist, n, cap).len() > out.len(),
        copied(out, dist, n, cap).len() >= out.len(),
    decreases n,
{
    if n > 0 && out.len() < cap {
        let byte = if dist <= out.len() {
            out[out.len() - dist]
        } else {
            0u8
        };
        lemma_copied_len(out.push(byte), dist, (n - 1) as nat, cap);
    }
}

/// A match leaves what is there alone, and every byte that it adds equals the byte `dist`
/// before it, or zero where the output does not reach back that far.
pub proof fn law_copied_repeats(out: Seq<u8>, dist: nat, n: nat, cap: nat)
    requires
        dist >= 1,
    ensures
        copied(out, dist, n, cap).len() >= out.len(),
        copied(out, dist, n, cap).take(out.len() as int) == out,
        forall|i: int|
            out.len() <= i < copied(out, dist, n, cap).len() ==> (#[trigger] copied(
                out,
                dist,
                n,
                cap,
            )[i]) == if dist <= i {
                copied(out, dist, n, cap)[i - dist]
            } else {
                0u8
            },
    decreases n,
{
    lemma_copied_len(out, dist, n, cap);
    let all = copied(out, dist, n, cap);
    if n > 0 && out.len() < cap {
        let byte = if dist <= out.len() {
            out[out.len() - dist]
        } else {
            0u8
        };
        let next = out.push(byte);
        law_copied_repeats(next, dist, (n - 1) as nat, cap);
        assert(all.take(next.len() as int) == next);
        assert forall|i: int| 0 <= i < next.len() implies all[i] == next[i] by {
            assert(all.take(next.len() as int)[i] == all[i]);
        }
    }
    assert(all.take(out.len() as int) =~= out);
}


} // verus!
