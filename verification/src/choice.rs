//! Choosing one option from a numbered list by typed input: the decision
//! half of the interactive variable chooser. The unverified edge prints
//! the options and reads lines; this decides what a line selects.

use vstd::prelude::*;
use crate::num::{dec_val, all_digits};
use crate::text::str_to_chars;

verus! {

/// Whether `c` is input whitespace to be trimmed away.
pub open spec fn is_trim_ws(c: char) -> bool {
    c == ' ' || c == '\n' || c == '\t' || c == '\r'
}

/// The input without leading whitespace.
pub open spec fn spec_trim_front(s: Seq<char>) -> Seq<char>
    decreases s.len(),
{
    if s.len() > 0 && is_trim_ws(s[0]) {
        spec_trim_front(s.skip(1))
    } else {
        s
    }
}

/// The input without trailing whitespace.
pub open spec fn spec_trim_back(s: Seq<char>) -> Seq<char>
    decreases s.len(),
{
    if s.len() > 0 && is_trim_ws(s.last()) {
        spec_trim_back(s.drop_last())
    } else {
        s
    }
}

/// The input without leading or trailing whitespace.
pub open spec fn spec_trim(s: Seq<char>) -> Seq<char> {
    spec_trim_back(spec_trim_front(s))
}

/// The one-based index a typed line stands for: the trimmed line, over an
/// optional plus sign, must be all digits and fit the machine's index
/// range.
pub open spec fn spec_line_index(s: Seq<char>) -> Option<nat> {
    let t = spec_trim(s);
    let digits = if t.len() > 0 && t[0] == '+' {
        t.skip(1)
    } else {
        t
    };
    if digits.len() == 0 || !all_digits(digits) {
        None
    } else if dec_val(digits) > usize::MAX {
        None
    } else {
        Some(dec_val(digits))
    }
}

/// The option a typed line selects: the line must name a position between
/// one and the number of options.
pub open spec fn spec_select(options: Seq<Seq<char>>, input: Seq<char>) -> Option<Seq<char>> {
    match spec_line_index(input) {
        Some(i) => if 1 <= i <= options.len() {
            Some(options[i - 1])
        } else {
            None
        },
        None => None,
    }
}

/// Reads the one-based index a typed line stands for, in executable code.
pub fn line_index(input: &str) -> (r: Option<usize>)
    ensures
        match r {
            Some(i) => spec_line_index(input@) == Some(i as nat),
            None => spec_line_index(input@) is None,
        },
{
    let cs = str_to_chars(input);
    proof {
        assert(cs@.skip(0) =~= cs@);
    }
    // trim the front
    let mut f: usize = 0;
    loop
        invariant
            0 <= f <= cs@.len(),
            spec_trim_front(cs@) == spec_trim_front(cs@.skip(f as int)),
        ensures
            f == cs@.len() || !is_trim_ws(cs@[f as int]),
            spec_trim_front(cs@) == cs@.skip(f as int),
        decreases cs@.len() - f,
    {
        if f == cs.len() {
            break;
        }
        let c = cs[f];
        proof {
            assert(cs@.skip(f as int)[0] == cs@[f as int]);
        }
        if !(c == ' ' || c == '\n' || c == '\t' || c == '\r') {
            break;
        }
        proof {
            assert(cs@.skip(f as int).skip(1) =~= cs@.skip(f as int + 1));
        }
        f = f + 1;
    }
    // trim the back
    let ghost front = cs@.skip(f as int);
    let mut b: usize = cs.len();
    loop
        invariant
            f <= b <= cs@.len(),
            spec_trim_back(front) == spec_trim_back(cs@.subrange(f as int, b as int)),
        ensures
            b == f || !is_trim_ws(cs@[b as int - 1]),
            spec_trim_back(front) == cs@.subrange(f as int, b as int),
        decreases b,
    {
        if b == f {
            proof {
                assert(cs@.subrange(f as int, f as int) =~= Seq::<char>::empty());
            }
            break;
        }
        let c = cs[b - 1];
        proof {
            assert(cs@.subrange(f as int, b as int).last() == cs@[b as int - 1]);
        }
        if !(c == ' ' || c == '\n' || c == '\t' || c == '\r') {
            break;
        }
        proof {
            assert(cs@.subrange(f as int, b as int).drop_last() =~= cs@.subrange(f as int, b as int - 1));
        }
        b = b - 1;
    }
    let ghost trimmed = spec_trim(cs@);
    proof {
        assert(trimmed == cs@.subrange(f as int, b as int));
    }
    // an optional plus sign
    let d0: usize = if f < b && cs[f] == '+' {
        proof {
            assert(trimmed[0] == cs@[f as int]);
        }
        f + 1
    } else {
        proof {
            if f < b {
                assert(trimmed[0] == cs@[f as int]);
            }
        }
        f
    };
    let ghost digits = cs@.subrange(d0 as int, b as int);
    proof {
        if f < b && cs@[f as int] == '+' {
            assert(trimmed.skip(1) =~= digits);
        } else {
            assert(trimmed =~= digits);
        }
    }
    if d0 == b {
        return None;
    }
    // the digits and their value
    let mut acc: u128 = 0;
    let mut over: bool = false;
    let mut i: usize = d0;
    while i < b
        invariant
            d0 <= i <= b <= cs@.len(),
            cs@ == input@,
            digits == cs@.subrange(d0 as int, b as int),
            digits.len() > 0,
            digits == (if spec_trim(cs@).len() > 0 && spec_trim(cs@)[0] == '+' {
                spec_trim(cs@).skip(1)
            } else {
                spec_trim(cs@)
            }),
            all_digits(cs@.subrange(d0 as int, i as int)),
            !over ==> acc == dec_val(cs@.subrange(d0 as int, i as int)) && acc <= usize::MAX as u128,
            over ==> dec_val(cs@.subrange(d0 as int, i as int)) > usize::MAX,
        decreases b - i,
    {
        let c = cs[i];
        if !('0' <= c && c <= '9') {
            proof {
                assert(digits[(i as int) - (d0 as int)] == cs@[i as int]);
                assert(!all_digits(digits));
            }
            return None;
        }
        let d: u128 = (c as u32 - 48) as u128;
        proof {
            let pre = cs@.subrange(d0 as int, i as int);
            assert(cs@.subrange(d0 as int, i as int + 1) =~= pre.push(c));
            assert(pre.push(c).drop_last() =~= pre);
        }
        if !over {
            let next = acc * 10 + d;
            if next > usize::MAX as u128 {
                over = true;
            } else {
                acc = next;
            }
        }
        i = i + 1;
    }
    if over {
        return None;
    }
    Some(acc as usize)
}

/// The option a typed line selects, in executable code: the cloned option
/// text, or nothing for an invalid line or an out-of-range position.
pub fn select_option(options: &Vec<String>, input: &str) -> (r: Option<String>)
    ensures
        match r {
            Some(t) => spec_select(options.deep_view(), input@) == Some(t@),
            None => spec_select(options.deep_view(), input@) is None,
        },
{
    match line_index(input) {
        Some(i) => {
            if 1 <= i && i <= options.len() {
                proof {
                    assert(options.deep_view()[i as int - 1] == options@[i as int - 1]@);
                }
                Some(options[i - 1].clone())
            } else {
                None
            }
        },
        None => None,
    }
}

} // verus!
