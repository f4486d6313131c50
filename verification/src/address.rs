//! The address the server binds to.

use vstd::prelude::*;
use crate::encode::{decimal, digits_value, lemma_decimal_is_digits, lemma_decimal_value, spec_decimal};

verus! {

/// `addr`, a colon and `port` in decimal, as `format!("{}:{}", addr, port)`
/// writes them.
pub open spec fn spec_bind_address(addr: Seq<char>, port: u16) -> Seq<char> {
    addr + seq![':'] + spec_decimal(port as nat)
}

/// The socket address to bind to, from the bind address and the port.
pub fn bind_address(addr: &str, port: u16) -> (r: String)
    ensures
        r@ == spec_bind_address(addr@, port),
{
    let mut r = addr.to_owned();
    r.append(":");
    proof {
        reveal_strlit(":");
    }
    let p = decimal(port as u64);
    r.append(p.as_str());
    r
}


/// The bind address is the given address, a colon, and then decimal digits
/// that stand for the port, without leading zeros.
pub proof fn lemma_bind_address_parts(addr: Seq<char>, port: u16)
    ensures
        ({
            let r = spec_bind_address(addr, port);
            let digits = r.skip(addr.len() + 1int);
            &&& r.take(addr.len() as int) == addr
            &&& r[addr.len() as int] == ':'
            &&& digits.len() > 0
            &&& digits_value(digits) == port
            &&& (port > 0 ==> digits[0] != '0')
            &&& forall|i: int| 0 <= i < digits.len() ==> 0x30 <= (#[trigger] digits[i] as int) <= 0x39
        }),
{
    let r = spec_bind_address(addr, port);
    lemma_decimal_value(port as nat);
    lemma_decimal_is_digits(port as nat);
    assert(r.take(addr.len() as int) =~= addr);
    assert(r.skip(addr.len() + 1int) =~= spec_decimal(port as nat));
}

} // verus!
