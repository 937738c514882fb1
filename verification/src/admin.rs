//! The admin client's view of the daemon's HTTP surface: which URL each
//! kind of record is administered at.

use vstd::prelude::*;
use vstd::string::StringExecFns;

verus! {

/// A kind of administered record.
#[derive(Clone, Copy, PartialEq, Eq, Structural)]
pub enum Target {
    Rendezvous,
    Use,
    Provide,
}

/// The decimal digit `d` as a character.
pub open spec fn spec_digit_char(d: int) -> char {
    if d == 0 {
        '0'
    } else if d == 1 {
        '1'
    } else if d == 2 {
        '2'
    } else if d == 3 {
        '3'
    } else if d == 4 {
        '4'
    } else if d == 5 {
        '5'
    } else if d == 6 {
        '6'
    } else if d == 7 {
        '7'
    } else if d == 8 {
        '8'
    } else {
        '9'
    }
}

/// The decimal text of `n`, without leading zeros.
pub open spec fn spec_dec(n: int) -> Seq<char>
    decreases n,
{
    if n < 10 {
        seq![spec_digit_char(n)]
    } else {
        spec_dec(n / 10).push(spec_digit_char(n % 10))
    }
}

/// The path under which records of kind `target` are administered.
pub open spec fn spec_target_path(target: Target) -> Seq<char> {
    match target {
        Target::Rendezvous => "/rendezvous"@,
        Target::Use => "/use_service"@,
        Target::Provide => "/provide_service"@,
    }
}

/// The URL of the daemon's admin resource for records of kind `target`,
/// on the local HTTP port `port`.
pub open spec fn spec_target_url(target: Target, port: u16) -> Seq<char> {
    "http://localhost:"@ + spec_dec(port as int) + spec_target_path(target)
}

/// Append the decimal text of `n`.
fn append_dec(n: u16, out: &mut String)
    ensures
        final(out)@ == old(out)@ + spec_dec(n as int),
    decreases n,
{
    if n >= 10 {
        append_dec(n / 10, out);
    }
    let d = n % 10;
    if d == 0 {
        proof {
            reveal_strlit("0");
        }
        out.append("0");
    } else if d == 1 {
        proof {
            reveal_strlit("1");
        }
        out.append("1");
    } else if d == 2 {
        proof {
            reveal_strlit("2");
        }
        out.append("2");
    } else if d == 3 {
        proof {
            reveal_strlit("3");
        }
        out.append("3");
    } else if d == 4 {
        proof {
            reveal_strlit("4");
        }
        out.append("4");
    } else if d == 5 {
        proof {
            reveal_strlit("5");
        }
        out.append("5");
    } else if d == 6 {
        proof {
            reveal_strlit("6");
        }
        out.append("6");
    } else if d == 7 {
        proof {
            reveal_strlit("7");
        }
        out.append("7");
    } else if d == 8 {
        proof {
            reveal_strlit("8");
        }
        out.append("8");
    } else {
        proof {
            reveal_strlit("9");
        }
        out.append("9");
    }
    proof {
        assert(final(out)@ =~= old(out)@ + spec_dec(n as int));
    }
}

/// The URL the admin client talks to for records of kind `target`, on
/// the local HTTP port `port`.
pub fn target_to_url(target: Target, port: u16) -> (r: String)
    ensures
        r@ == spec_target_url(target, port),
{
    let mut url = String::from_str("http://localhost:");
    append_dec(port, &mut url);
    match target {
        Target::Rendezvous => url.append("/rendezvous"),
        Target::Use => url.append("/use_service"),
        Target::Provide => url.append("/provide_service"),
    }
    assert(url@ =~= spec_target_url(target, port));
    url
}

} // verus!
