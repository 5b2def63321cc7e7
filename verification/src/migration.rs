//! Migration: merging the bytes of the old braindump file into the new one.

use vstd::prelude::*;
use crate::paths::{paths_equal, same_path};

verus! {

/// Whether one line feed must be put between `target` and `source` so that
/// the source starts on a line of its own: both are non-empty, the target
/// does not end with a line feed and the source does not start with one.
pub open spec fn needs_join_lf(target: Seq<u8>, source: Seq<u8>) -> bool {
    &&& target.len() > 0
    &&& source.len() > 0
    &&& target.last() != 10u8
    &&& source[0] != 10u8
}

/// The merged file: the target's bytes, one line feed where needed, then the
/// source's bytes.
pub open spec fn merged_spec(target: Seq<u8>, source: Seq<u8>) -> Seq<u8> {
    if needs_join_lf(target, source) {
        target + seq![10u8] + source
    } else {
        target + source
    }
}

/// The bytes of the target file after migrating `source` into `target`.
pub fn merge_contents(target: &Vec<u8>, source: &Vec<u8>) -> (r: Vec<u8>)
    ensures
        r@ == merged_spec(target@, source@),
{
    let needs_lf = target.len() > 0 && source.len() > 0 && target[target.len() - 1] != 10u8
        && source[0] != 10u8;
    let mut out: Vec<u8> = Vec::new();
    let mut i: usize = 0;
    while i < target.len()
        invariant
            0 <= i <= target@.len(),
            out@ == target@.take(i as int),
        decreases target@.len() - i,
    {
        out.push(target[i]);
        i = i + 1;
        proof {
            assert(out@ =~= target@.take(i as int));
        }
    }
    if needs_lf {
        out.push(10u8);
    }
    let ghost head = out@;
    let mut j: usize = 0;
    while j < source.len()
        invariant
            0 <= j <= source@.len(),
            out@ == head + source@.take(j as int),
        decreases source@.len() - j,
    {
        out.push(source[j]);
        j = j + 1;
        proof {
            assert(out@ =~= head + source@.take(j as int));
        }
    }
    proof {
        assert(target@.take(target@.len() as int) =~= target@);
        assert(source@.take(source@.len() as int) =~= source@);
        assert(out@ =~= merged_spec(target@, source@));
    }
    out
}

/// Whether migrating from `source` to `target` has nothing to do: they are
/// the same path.
pub fn same_file(source: &str, target: &str) -> (r: bool)
    ensures
        r == paths_equal(source@, target@),
{
    same_path(source, target)
}

/// Migration keeps every byte of both files in order: the target's bytes come
/// first, the source's bytes last, and at most one line feed lies between.
/// When both are non-empty the source starts on a line of its own; when the
/// source is empty the target is unchanged; when the target is empty the
/// result is the source verbatim.
pub proof fn law_migration_keeps_both_files(target: Seq<u8>, source: Seq<u8>)
    ensures
        ({
            let m = merged_spec(target, source);
            &&& m.take(target.len() as int) == target
            &&& m.len() >= target.len() + source.len()
            &&& m.skip(m.len() - source.len()) == source
            &&& m.len() == target.len() + source.len() + (if needs_join_lf(target, source) { 1int } else { 0int })
            &&& (target.len() > 0 && source.len() > 0) ==> (m[target.len() as int] == 10u8 || m[target.len() - 1] == 10u8)
            &&& source.len() == 0 ==> m == target
            &&& target.len() == 0 ==> m == source
        }),
{
    let m = merged_spec(target, source);
    assert(m.take(target.len() as int) =~= target);
    assert(m.skip(m.len() - source.len()) =~= source);
    if source.len() == 0 {
        assert(m =~= target);
    }
    if target.len() == 0 {
        assert(m =~= source);
    }
}

/// A line feed is added between the files only when it is missing: if the
/// target is empty or ends with a line feed, or the source is empty or starts
/// with one, the merged bytes are the target's followed by the source's;
/// otherwise one line feed (byte 10) lies between them.
pub proof fn law_join_byte_only_when_missing(target: Seq<u8>, source: Seq<u8>)
    ensures
        (target.len() == 0 || target[target.len() - 1] == 10u8 || source.len() == 0 || source[0]
            == 10u8) ==> merged_spec(target, source) == target + source,
        !(target.len() == 0 || target[target.len() - 1] == 10u8 || source.len() == 0 || source[0]
            == 10u8) ==> merged_spec(target, source) == target + seq![10u8] + source,
{
}

} // verus!
