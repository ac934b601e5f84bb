//! Synthesized OS object names.
//!
//! When no OS name is requested, the creator draws a random 64-bit value and
//! publishes the mapping as `/shmem_` followed by the value's sixteen
//! uppercase hexadecimal digits. The leading slash is what POSIX shared
//! memory objects require.

use vstd::prelude::*;
use vstd::string::StringExecFns;

use rand::Rng;

verus! {

/// Relies on `rand::thread_rng` and `rand::Rng::gen::<u64>`: a random 64-bit
/// value; nothing is assumed of the result.
#[verifier::external_body]
fn random_u64() -> u64 {
    rand::thread_rng().gen::<u64>()
}

/// The uppercase hexadecimal digit with value `d`.
pub open spec fn hex_char(d: u64) -> char
    recommends
        d < 16,
{
    if d == 0 {
        '0'
    } else if d == 1 {
        '1'
    } else if d == 2 {
        '2'
    } else if d == 3 {
        '3'
    } else if d == 4 {
        '4'
    } else if d == 5 {
        '5'
    } else if d == 6 {
        '6'
    } else if d == 7 {
        '7'
    } else if d == 8 {
        '8'
    } else if d == 9 {
        '9'
    } else if d == 10 {
        'A'
    } else if d == 11 {
        'B'
    } else if d == 12 {
        'C'
    } else if d == 13 {
        'D'
    } else if d == 14 {
        'E'
    } else {
        'F'
    }
}

/// The `i`-th hexadecimal digit of `v`, counted from the most significant.
pub open spec fn hex_digit(v: u64, i: int) -> u64
    recommends
        0 <= i < 16,
{
    (v >> (((15 - i) * 4) as u64)) & 0xf
}

/// The characters of the name synthesized from the random value `v`.
pub open spec fn synth_name_chars(v: u64) -> Seq<char> {
    seq!['/', 's', 'h', 'm', 'e', 'm', '_'] + Seq::new(16, |i: int| hex_char(hex_digit(v, i)))
}

/// `s` is a name this module could have synthesized: `/shmem_` followed by
/// sixteen uppercase hexadecimal digits.
pub open spec fn is_synth_name(s: Seq<char>) -> bool {
    exists|v: u64| s == synth_name_chars(v)
}

/// The one-character string holding the uppercase hexadecimal digit `d`.
fn hex_digit_str(d: u64) -> (r: &'static str)
    requires
        d < 16,
    ensures
        r@ == seq![hex_char(d)],
{
    if d == 0 {
        proof {
            reveal_strlit("0");
            assert("0"@ =~= seq![hex_char(0)]);
        }
        "0"
    } else if d == 1 {
        proof {
            reveal_strlit("1");
            assert("1"@ =~= seq![hex_char(1)]);
        }
        "1"
    } else if d == 2 {
        proof {
            reveal_strlit("2");
            assert("2"@ =~= seq![hex_char(2)]);
        }
        "2"
    } else if d == 3 {
        proof {
            reveal_strlit("3");
            assert("3"@ =~= seq![hex_char(3)]);
        }
        "3"
    } else if d == 4 {
        proof {
            reveal_strlit("4");
            assert("4"@ =~= seq![hex_char(4)]);
        }
        "4"
    } else if d == 5 {
        proof {
            reveal_strlit("5");
            assert("5"@ =~= seq![hex_char(5)]);
        }
        "5"
    } else if d == 6 {
        proof {
            reveal_strlit("6");
            assert("6"@ =~= seq![hex_char(6)]);
        }
        "6"
    } else if d == 7 {
        proof {
            reveal_strlit("7");
            assert("7"@ =~= seq![hex_char(7)]);
        }
        "7"
    } else if d == 8 {
        proof {
            reveal_strlit("8");
            assert("8"@ =~= seq![hex_char(8)]);
        }
        "8"
    } else if d == 9 {
        proof {
            reveal_strlit("9");
            assert("9"@ =~= seq![hex_char(9)]);
        }
        "9"
    } else if d == 10 {
        proof {
            reveal_strlit("A");
            assert("A"@ =~= seq![hex_char(10)]);
        }
        "A"
    } else if d == 11 {
        proof {
            reveal_strlit("B");
            assert("B"@ =~= seq![hex_char(11)]);
        }
        "B"
    } else if d == 12 {
        proof {
            reveal_strlit("C");
            assert("C"@ =~= seq![hex_char(12)]);
        }
        "C"
    } else if d == 13 {
        proof {
            reveal_strlit("D");
            assert("D"@ =~= seq![hex_char(13)]);
        }
        "D"
    } else if d == 14 {
        proof {
            reveal_strlit("E");
            assert("E"@ =~= seq![hex_char(14)]);
        }
        "E"
    } else {
        proof {
            reveal_strlit("F");
            assert("F"@ =~= seq![hex_char(15)]);
        }
        "F"
    }
}

/// Synthesizes a fresh OS object name from a random 64-bit value.
pub fn synth_os_name() -> (r: String)
    ensures
        is_synth_name(r@),
{
    let v = random_u64();
    let mut s = String::from_str("/shmem_");
    proof {
        reveal_strlit("/shmem_");
        assert(s@ =~= seq!['/', 's', 'h', 'm', 'e', 'm', '_']);
    }
    let mut i: usize = 0;
    while i < 16
        invariant
            i <= 16,
            s@ =~= seq!['/', 's', 'h', 'm', 'e', 'm', '_'] + Seq::new(
                i as nat,
                |k: int| hex_char(hex_digit(v, k)),
            ),
        decreases 16 - i,
    {
        let shift: u64 = ((15 - i) * 4) as u64;
        let d: u64 = (v >> shift) & 0xf;
        proof {
            assert((v >> shift) & 0xf < 16) by (bit_vector);
            assert(d == hex_digit(v, i as int));
        }
        s.append(hex_digit_str(d));
        i = i + 1;
        proof {
            assert(s@ =~= seq!['/', 's', 'h', 'm', 'e', 'm', '_'] + Seq::new(
                i as nat,
                |k: int| hex_char(hex_digit(v, k)),
            ));
        }
    }
    proof {
        assert(s@ =~= synth_name_chars(v));
    }
    s
}

} // verus!
