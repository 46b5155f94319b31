//! What the process-spawning entry point of compiled programs runs: the
//! command and the arguments it passes on, read from their bytes.
use vstd::prelude::*;
use vstd::utf8::{decode_utf8, valid_utf8};
use crate::stdlib::errno::utf8_text;

verus! {

/// The arguments that are passed on: those whose bytes are UTF-8, decoded,
/// in order; the others are left out.
pub open spec fn passed_arguments(args: Seq<Seq<u8>>) -> Seq<Seq<char>>
    decreases args.len(),
{
    if args.len() == 0 {
        seq![]
    } else {
        let init = passed_arguments(args.drop_last());
        if valid_utf8(args.last()) {
            init.push(decode_utf8(args.last()))
        } else {
            init
        }
    }
}

/// The command to run and its arguments, from the command's bytes (`None`
/// for a null command) and the bytes of each argument up to the first null
/// one. There is nothing to run, and the entry point answers -1, when the
/// command is null or not UTF-8; arguments that are not UTF-8 are left out.
pub fn process_invocation(command: Option<&[u8]>, args: &[Vec<u8>]) -> (r: Option<(String, Vec<String>)>)
    ensures
        r is Some <==> (command matches Some(c) && valid_utf8(c@)),
        r matches Some((c, a)) ==> c@ == decode_utf8(command->0@) && a@.map_values(
            |s: String| s@,
        ) == passed_arguments(args@.map_values(|v: Vec<u8>| v@)),
{
    let command = match command {
        Some(c) => c,
        None => return None,
    };
    let text = match utf8_text(command) {
        Some(t) => t,
        None => return None,
    };
    let ghost bytes = args@.map_values(|v: Vec<u8>| v@);
    let mut passed: Vec<String> = Vec::new();
    let mut i: usize = 0;
    while i < args.len()
        invariant
            i <= args@.len(),
            bytes == args@.map_values(|v: Vec<u8>| v@),
            passed@.map_values(|s: String| s@) == passed_arguments(bytes.take(i as int)),
        decreases args.len() - i,
    {
        let ghost before = passed@.map_values(|s: String| s@);
        assert(bytes.take(i + 1).drop_last() =~= bytes.take(i as int));
        assert(bytes.take(i + 1).last() == args@[i as int]@);
        match utf8_text(args[i].as_slice()) {
            Some(a) => {
                let ghost av = a@;
                passed.push(a);
                assert(passed@.map_values(|s: String| s@) =~= before.push(av));
            },
            None => {},
        }
        i = i + 1;
    }
    assert(bytes.take(args@.len() as int) =~= bytes);
    Some((text, passed))
}

} // verus!
