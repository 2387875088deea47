//! The filter that a command passes before it is launched, and the suffix
//! that keeps the terminal open afterwards.
use vstd::prelude::*;
use crate::text::{contains, contains_seq, occurs_at};
use crate::error::{ErrorKind, TraceError};

verus! {

/// Why a command was refused.
#[derive(Debug, PartialEq, Eq, Structural)]
pub enum UnsafeCommand {
    Rm,
    DiskWrite,
    PrivilageEscalation,
}

/// The verdict of the filter on a command's text: `rm` first, then `dd` or
/// `wipefs`, then `sudo`, each refused wherever it occurs in the text.
pub open spec fn safety_verdict(command: Seq<char>) -> Result<(), UnsafeCommand> {
    if contains_seq(command, "rm"@) {
        Err(UnsafeCommand::Rm)
    } else if contains_seq(command, "dd"@) || contains_seq(command, "wipefs"@) {
        Err(UnsafeCommand::DiskWrite)
    } else if contains_seq(command, "sudo"@) {
        Err(UnsafeCommand::PrivilageEscalation)
    } else {
        Ok(())
    }
}

/// Refuses a command whose text holds `rm`, `dd`, `wipefs` or `sudo`.
pub fn check_commad_safety(command: &str) -> (r: Result<(), UnsafeCommand>)
    ensures
        r == safety_verdict(command@),
{
    if contains(command, "rm") {
        return Err(UnsafeCommand::Rm);
    }
    if contains(command, "dd") || contains(command, "wipefs") {
        return Err(UnsafeCommand::DiskWrite);
    }
    if contains(command, "sudo") {
        return Err(UnsafeCommand::PrivilageEscalation);
    }
    Ok(())
}

/// Appends `; bash`, so that the terminal keeps a shell once the command ends.
pub fn keep_alive(command: &mut String)
    ensures
        final(command)@ == old(command)@ + "; bash"@,
{
    command.append("; bash");
}

impl UnsafeCommand {
    /// The error that a refused command is answered with: permission denied,
    /// whatever was found.
    pub fn into_error(self) -> (r: TraceError)
        ensures
            r@ == (ErrorKind::PermissionDenied, "unsafe operation detected"@),
    {
        TraceError { kind: ErrorKind::PermissionDenied, message: "unsafe operation detected".to_string() }
    }
}

/// Appending `t` to a text does not make `w` occur in it, nor stop it from
/// occurring, when `w` holds none of the characters of `t`'s first place and
/// cannot start anywhere in `t`.
proof fn lemma_suffix_adds_no_occurrence(c: Seq<char>, t: Seq<char>, w: Seq<char>)
    requires
        w.len() > 0,
        t.len() > 0,
        forall|k: int| 0 <= k < w.len() ==> w[k] != t[0],
        forall|j: int| 0 <= j && j + w.len() <= t.len() ==> t[j] != w[0],
    ensures
        contains_seq(c + t, w) == contains_seq(c, w),
{
    let s = c + t;
    if contains_seq(c, w) {
        let i = choose|i: int| occurs_at(c, w, i);
        assert(s.subrange(i, i + w.len()) =~= c.subrange(i, i + w.len()));
        assert(occurs_at(s, w, i));
    }
    if contains_seq(s, w) {
        let i = choose|i: int| occurs_at(s, w, i);
        if i + w.len() <= c.len() {
            assert(s.subrange(i, i + w.len()) =~= c.subrange(i, i + w.len()));
            assert(occurs_at(c, w, i));
        } else if i >= c.len() {
            assert(s.subrange(i, i + w.len())[0] == t[i - c.len()]);
            assert(false);
        } else {
            let k = c.len() - i;
            assert(s.subrange(i, i + w.len())[k] == t[0]);
            assert(false);
        }
    }
}

/// Keeping the terminal alive never changes what the filter says of a
/// command: the suffix `; bash` holds none of the refused words, and none of
/// them holds `;`, so none can begin in the command and end in the suffix.
pub proof fn lemma_keep_alive_keeps_verdict(command: Seq<char>)
    ensures
        safety_verdict(command + "; bash"@) == safety_verdict(command),
{
    let t = "; bash"@;
    reveal_strlit("; bash");
    reveal_strlit("rm");
    reveal_strlit("dd");
    reveal_strlit("wipefs");
    reveal_strlit("sudo");
    assert(t.len() == 6);
    assert forall|j: int| 0 <= j < 6 implies t[j] != 'r' && t[j] != 'd' && t[j] != 'w' by {
        if j == 0 {
        } else if j == 1 {
        } else if j == 2 {
        } else if j == 3 {
        } else if j == 4 {
        } else {
        }
    }
    assert forall|j: int| 0 <= j <= 2 implies t[j] != 's' by {
        if j == 0 {
        } else if j == 1 {
        } else {
        }
    }
    lemma_suffix_adds_no_occurrence(command, t, "rm"@);
    lemma_suffix_adds_no_occurrence(command, t, "dd"@);
    lemma_suffix_adds_no_occurrence(command, t, "wipefs"@);
    lemma_suffix_adds_no_occurrence(command, t, "sudo"@);
}

/// Text around a refused word never gets a command accepted: whatever
/// stands before and after `rm`, `dd`, `wipefs` or `sudo`, the command is
/// refused, and for `rm` it is refused as `rm`.
pub proof fn lemma_refused_word_anywhere(before: Seq<char>, after: Seq<char>)
    ensures
        safety_verdict(before + "rm"@ + after) == Err::<(), UnsafeCommand>(UnsafeCommand::Rm),
        safety_verdict(before + "dd"@ + after) is Err,
        safety_verdict(before + "wipefs"@ + after) is Err,
        safety_verdict(before + "sudo"@ + after) is Err,
{
    lemma_occurs_in_middle(before, "rm"@, after);
    lemma_occurs_in_middle(before, "dd"@, after);
    lemma_occurs_in_middle(before, "wipefs"@, after);
    lemma_occurs_in_middle(before, "sudo"@, after);
}

proof fn lemma_occurs_in_middle(a: Seq<char>, w: Seq<char>, b: Seq<char>)
    ensures
        contains_seq(a + w + b, w),
{
    let s = a + w + b;
    assert(s.subrange(a.len() as int, a.len() + w.len() as int) =~= w);
    assert(occurs_at(s, w, a.len() as int));
}

/// An accepted command holds none of the refused words anywhere.
pub proof fn lemma_accepted_holds_no_refused_word(command: Seq<char>, i: int)
    requires
        safety_verdict(command) is Ok,
    ensures
        !occurs_at(command, "rm"@, i),
        !occurs_at(command, "dd"@, i),
        !occurs_at(command, "wipefs"@, i),
        !occurs_at(command, "sudo"@, i),
{
}

} // verus!
