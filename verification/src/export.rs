//! Saving the history of the session.

use vstd::prelude::*;

use crate::number::{decimal, lemma_decimal_reads_back, number_of, push_decimal};

verus! {

/// The name of the file that an export at the given Unix time is saved to.
pub open spec fn export_name(epoch: u64) -> Seq<char> {
    "net-monitor-export-"@ + decimal(epoch as nat) + ".csv"@
}

/// The name of the file that an export at the given Unix time is saved to.
pub fn export_file_name(epoch: u64) -> (name: String)
    ensures
        name@ == export_name(epoch),
{
    let mut name: String = "net-monitor-export-".to_owned();
    push_decimal(&mut name, epoch);
    name.append(".csv");
    name
}

/// The time of an export can be read from the name of its file, so that exports at
/// different times go to different files.
pub proof fn lemma_export_names_differ(epoch: u64, other: u64)
    ensures
        export_name(epoch).len() > 23,
        number_of(
            export_name(epoch).subrange(19, export_name(epoch).len() - 4),
            10,
            u64::MAX as nat,
        ) == Some(epoch as nat),
        ".csv"@.is_suffix_of(export_name(epoch)),
        export_name(epoch) == export_name(other) ==> epoch == other,
{
    reveal_strlit("net-monitor-export-");
    reveal_strlit(".csv");
    let max = u64::MAX as nat;
    let d = decimal(epoch as nat);
    let e = decimal(other as nat);
    let name = export_name(epoch);
    lemma_decimal_reads_back(epoch as nat, max);
    lemma_decimal_reads_back(other as nat, max);
    assert(name.subrange(19, name.len() - 4) =~= d);
    assert(export_name(other).subrange(19, export_name(other).len() - 4) =~= e);
    assert(".csv"@ =~= name.subrange(name.len() - 4, name.len() as int));
}

} // verus!
