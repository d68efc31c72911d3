//! Byte buffers.

use vstd::prelude::*;

verus! {

/// Appends `bytes` to `out`.
pub fn push_bytes(out: &mut Vec<u8>, bytes: &[u8])
    ensures
        final(out)@ == old(out)@ + bytes@,
{
    out.extend_from_slice(bytes);
    assert(out@ =~= old(out)@ + bytes@);
}

/// The number of places at which `pattern` stands in `bytes`.
pub open spec fn occurrences(bytes: Seq<u8>, pattern: Seq<u8>) -> nat
    decreases bytes.len(),
{
    if bytes.len() == 0 {
        0
    } else {
        (if pattern.is_prefix_of(bytes) {
            1nat
        } else {
            0
        }) + occurrences(bytes.drop_first(), pattern)
    }
}

/// No occurrence of `pattern` can begin in `bytes` and end behind it: each rest
/// of `bytes` that is shorter than `pattern` differs from it.
pub open spec fn holds_whole(bytes: Seq<u8>, pattern: Seq<u8>) -> bool {
    forall|i: int|
        0 <= i < bytes.len() < i + pattern.len() ==> !(#[trigger] bytes.skip(i)).is_prefix_of(
            pattern,
        )
}

/// Occurrences in a text of two parts are those in either part, where none can
/// lie across.
pub proof fn lemma_occurrences_concat(a: Seq<u8>, b: Seq<u8>, pattern: Seq<u8>)
    requires
        holds_whole(a, pattern),
    ensures
        occurrences(a + b, pattern) == occurrences(a, pattern) + occurrences(b, pattern),
    decreases a.len(),
{
    if a.len() == 0 {
        assert(a + b =~= b);
    } else {
        let rest = a.drop_first();
        assert((a + b).drop_first() =~= rest + b);
        assert(pattern.is_prefix_of(a + b) <==> pattern.is_prefix_of(a)) by {
            if pattern.len() <= a.len() {
                assert((a + b).subrange(0, pattern.len() as int) =~= a.subrange(
                    0,
                    pattern.len() as int,
                ));
            } else {
                assert(a.skip(0) =~= a);
                if pattern.is_prefix_of(a + b) {
                    assert(a =~= pattern.subrange(0, a.len() as int));
                }
            }
        }
        assert(holds_whole(rest, pattern)) by {
            assert forall|i: int| 0 <= i < rest.len() < i + pattern.len() implies !(
            #[trigger] rest.skip(i)).is_prefix_of(pattern) by {
                assert(rest.skip(i) =~= a.skip(i + 1));
            }
        }
        lemma_occurrences_concat(rest, b, pattern);
    }
}

/// A pattern does not stand where its first byte does not.
pub proof fn lemma_no_occurrence(bytes: Seq<u8>, pattern: Seq<u8>)
    requires
        pattern.len() > 0,
        !bytes.contains(pattern[0]),
    ensures
        occurrences(bytes, pattern) == 0,
        holds_whole(bytes, pattern),
    decreases bytes.len(),
{
    assert forall|i: int| 0 <= i < bytes.len() < i + pattern.len() implies !(
    #[trigger] bytes.skip(i)).is_prefix_of(pattern) by {
        assert(bytes.skip(i)[0] == bytes[i]);
    }
    if bytes.len() > 0 {
        let rest = bytes.drop_first();
        assert forall|i: int| 0 <= i < rest.len() implies rest[i] != pattern[0] by {
            assert(rest[i] == bytes[i + 1]);
        }
        lemma_no_occurrence(rest, pattern);
        assert(bytes[0] != pattern[0]);
    }
}

} // verus!
