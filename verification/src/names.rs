//! Variable names: what the user may store a result under.
use vstd::prelude::*;

use crate::grammar::is_name_char;
use crate::program::{is_reserved, reserved_range};
use crate::text::{is_letter, letter, letter_or_digit, to_chars};

verus! {

/// Why `name` cannot name a variable, or `None` when it can: it must not be
/// empty, must not be a constant's or a function's name, and must be made of
/// letters, digits and `_`, starting with a letter.
pub open spec fn name_error(name: Seq<char>) -> Option<Seq<char>> {
    if name.len() == 0 {
        Some("Name darf nicht leer sein"@)
    } else if is_reserved(name) {
        Some("'"@ + name + "' ist reserviert"@)
    } else if !is_letter(name[0]) || exists|i: int| 1 <= i < name.len() && !is_name_char(
        #[trigger] name[i],
    ) {
        Some("Nur Buchstaben, Ziffern und '_' erlaubt; muss mit einem Buchstaben beginnen"@)
    } else {
        None
    }
}

/// Checks a name under which a result is to be stored.
pub fn validate_var_name(name: &str) -> (r: Result<(), String>)
    ensures
        match r {
            Ok(()) => name_error(name@) is None,
            Err(msg) => name_error(name@) == Some(msg@),
        },
{
    let chars = to_chars(name);
    let n = chars.len();
    if n == 0 {
        return Err(String::from_str("Name darf nicht leer sein"));
    }
    assert(chars@.subrange(0, n as int) =~= chars@);
    if reserved_range(&chars, 0, n) {
        let mut msg = String::from_str("'");
        msg.append(name);
        msg.append("' ist reserviert");
        return Err(msg);
    }
    let first_ok = letter(chars[0]);
    let mut rest_ok = true;
    let mut i: usize = 1;
    while i < n
        invariant
            1 <= i <= n,
            n == chars@.len(),
            chars@ == name@,
            rest_ok <==> (forall|k: int| 1 <= k < i ==> is_name_char(#[trigger] chars@[k])),
        decreases n - i,
    {
        let c = chars[i];
        if !(letter_or_digit(c) || c == '_') {
            rest_ok = false;
        }
        i = i + 1;
    }
    if !first_ok || !rest_ok {
        return Err(
            String::from_str(
                "Nur Buchstaben, Ziffern und '_' erlaubt; muss mit einem Buchstaben beginnen",
            ),
        );
    }
    Ok(())
}

} // verus!
