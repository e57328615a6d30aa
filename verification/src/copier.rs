//! The verified copier: every image transfer to the ESP goes through it.
//! A copy is skipped when the destination already holds byte-identical
//! content; otherwise the destination becomes an exact copy of the source,
//! and the action emitted for the shell carries a byte-count check whose
//! outcome [`check_copied`] judges.

use vstd::prelude::*;
use vstd::string::*;

use crate::error::Error;
use crate::fsmodel::StrMap;
use crate::plan::{pushed, Action, ActionView};

verus! {

/// Byte-for-byte equality of file contents.
pub fn bytes_eq(a: &Vec<u8>, b: &Vec<u8>) -> (r: bool)
    ensures
        r == (a@ == b@),
{
    let n = a.len();
    if n != b.len() {
        return false;
    }
    let mut i: usize = 0;
    loop
        invariant
            0 <= i <= n,
            n == a@.len() == b@.len(),
            forall|j: int| 0 <= j < i ==> a@[j] == b@[j],
        ensures
            i == n || a@[i as int] != b@[i as int],
            forall|j: int| 0 <= j < i ==> a@[j] == b@[j],
        decreases n - i,
    {
        if i == n {
            break ;
        }
        if a[i] != b[i] {
            break ;
        }
        i = i + 1;
    }
    if i == n {
        proof {
            assert(a@ =~= b@);
        }
        true
    } else {
        false
    }
}

/// An owned copy of file contents.
pub fn clone_bytes(a: &Vec<u8>) -> (r: Vec<u8>)
    ensures
        r@ == a@,
{
    let n = a.len();
    let mut out: Vec<u8> = Vec::new();
    let mut i: usize = 0;
    while i < n
        invariant
            0 <= i <= n,
            n == a@.len(),
            out@ =~= a@.subrange(0, i as int),
        decreases n - i,
    {
        out.push(a[i]);
        proof {
            assert(out@ =~= a@.subrange(0, i + 1));
        }
        i = i + 1;
    }
    proof {
        assert(out@ =~= a@);
    }
    out
}

/// Copies files to the ESP and confirms the result.
pub struct VerifiedCopier {}

impl VerifiedCopier {
    /// Copies the file `name` from the source directory to the ESP
    /// directory of the model, skipping the transfer when the destination
    /// already holds identical bytes. Returns whether bytes actually moved;
    /// fails exactly when the source file is absent, leaving everything
    /// unchanged. When bytes move, one copy action is appended to the plan.
    pub fn copy(
        source: &StrMap<Vec<u8>>,
        name: &str,
        esp: &mut StrMap<Vec<u8>>,
        plan: &mut Vec<Action>,
    ) -> (r: Result<bool, Error>)
        requires
            source.wf(),
            old(esp).wf(),
        ensures
            final(esp).wf(),
            r is Ok <==> source@.contains_key(name@),
            r is Err ==> final(esp)@ == old(esp)@ && final(plan)@ == old(plan)@ && (
            r->Err_0 is Missing),
            r matches Ok(wrote) ==> {
                &&& final(esp)@ == old(esp)@.insert(name@, source@[name@])
                &&& wrote == !(old(esp)@.contains_key(name@) && old(esp)@[name@]
                    == source@[name@])
                &&& (wrote ==> pushed(
                    old(plan)@,
                    final(plan)@,
                    ActionView::CopyToEsp { name: name@ },
                ))
                &&& (!wrote ==> final(plan)@ == old(plan)@)
            },
    {
        let data = {
            match source.get(name) {
                Some(d) => clone_bytes(d),
                None => {
                    return Err(Error::Missing(String::from_str(name)));
                },
            }
        };
        let same = {
            match esp.get(name) {
                Some(existing) => bytes_eq(existing, &data),
                None => false,
            }
        };
        if same {
            proof {
                assert(old(esp)@ =~= old(esp)@.insert(name@, source@[name@]));
            }
            return Ok(false);
        }
        esp.insert(name, data);
        plan.push(Action::CopyToEsp { name: String::from_str(name) });
        proof {
            assert(plan@.drop_last() =~= old(plan)@);
        }
        Ok(true)
    }
}

/// Copying is idempotent: after one successful copy the destination holds
/// the source's bytes; a second copy with source and destination unchanged
/// therefore moves no bytes (its `wrote` condition from
/// [`VerifiedCopier::copy`] is false, so no action is emitted) and leaves
/// the destination identical to the source again.
pub proof fn lemma_copy_idempotent(
    src: Map<Seq<char>, Seq<u8>>,
    esp0: Map<Seq<char>, Seq<u8>>,
    name: Seq<char>,
)
    requires
        src.contains_key(name),
    ensures
        ({
            let esp1 = esp0.insert(name, src[name]);
            &&& esp1.contains_key(name) && esp1[name] == src[name]
            &&& esp1.insert(name, src[name]) == esp1
        }),
{
    assert(esp0.insert(name, src[name]).insert(name, src[name]) =~= esp0.insert(
        name,
        src[name],
    ));
}

/// Judges a finished transfer: the copy is complete exactly when as many
/// bytes reached the destination as the source holds; anything less means
/// the device ran out of space and the partial file must not be kept.
pub fn check_copied(written: u64, source_len: u64) -> (r: Result<(), Error>)
    ensures
        r is Ok <==> written == source_len,
        r is Err ==> r->Err_0 is NoSpace,
{
    if written == source_len {
        Ok(())
    } else {
        Err(Error::NoSpace)
    }
}

} // verus!
