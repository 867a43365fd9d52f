use vstd::prelude::*;
use vstd::string::StrSliceExecFns;

verus! {

/// The four menu entries of the console front end, plus a marker for any
/// other input line.
#[derive(Clone, Copy, Debug, PartialEq, Eq, Structural)]
pub enum MenuChoice {
    AddTask,
    ListTasks,
    CompleteTask,
    Exit,
    Unknown,
}

/// Which menu entry a (trimmed) input line selects.
pub open spec fn choice_of(line: Seq<char>) -> MenuChoice {
    if line.len() != 1 {
        MenuChoice::Unknown
    } else if line[0] == '1' {
        MenuChoice::AddTask
    } else if line[0] == '2' {
        MenuChoice::ListTasks
    } else if line[0] == '3' {
        MenuChoice::CompleteTask
    } else if line[0] == '4' {
        MenuChoice::Exit
    } else {
        MenuChoice::Unknown
    }
}

/// Dispatch a trimmed menu input line to the entry it selects.
pub fn parse_menu_choice(line: &str) -> (c: MenuChoice)
    ensures
        c == choice_of(line@),
{
    if line.unicode_len() != 1 {
        return MenuChoice::Unknown;
    }
    let ch = line.get_char(0);
    if ch == '1' {
        MenuChoice::AddTask
    } else if ch == '2' {
        MenuChoice::ListTasks
    } else if ch == '3' {
        MenuChoice::CompleteTask
    } else if ch == '4' {
        MenuChoice::Exit
    } else {
        MenuChoice::Unknown
    }
}

/// Whether `c` is a decimal digit.
pub open spec fn is_ascii_digit(c: char) -> bool {
    '0' <= c && c <= '9'
}

/// The numeric value of a decimal digit.
pub open spec fn digit_value(c: char) -> nat
    recommends
        is_ascii_digit(c),
{
    (c as u32 - '0' as u32) as nat
}

/// Whether every character of `s` is a decimal digit.
pub open spec fn all_digits(s: Seq<char>) -> bool {
    forall|i: int| 0 <= i < s.len() ==> is_ascii_digit(#[trigger] s[i])
}

/// The value of a string of decimal digits, most significant first.
pub open spec fn digits_value(s: Seq<char>) -> nat
    decreases s.len(),
{
    if s.len() == 0 {
        0
    } else {
        digits_value(s.drop_last()) * 10 + digit_value(s.last())
    }
}

/// The digit part of an unsigned-integer literal: everything after one
/// optional leading plus sign.
pub open spec fn unsigned_digits(s: Seq<char>) -> Seq<char> {
    if s.len() > 0 && s[0] == '+' {
        s.subrange(1, s.len() as int)
    } else {
        s
    }
}

/// Whether `s` parses as a `u32`: one optional leading plus sign, then at
/// least one decimal digit, and a value of at most `u32::MAX`.
pub open spec fn parses_to_u32(s: Seq<char>) -> bool {
    let d = unsigned_digits(s);
    &&& d.len() > 0
    &&& all_digits(d)
    &&& digits_value(d) <= u32::MAX
}

/// Extending a digit string to the right never decreases its value.
proof fn lemma_digits_value_prefix(s: Seq<char>, k: int)
    requires
        0 <= k <= s.len(),
    ensures
        digits_value(s.subrange(0, k)) <= digits_value(s),
    decreases s.len() - k,
{
    if k == s.len() {
        assert(s.subrange(0, k) =~= s);
    } else {
        lemma_digits_value_prefix(s, k + 1);
        let p = s.subrange(0, k + 1);
        assert(p.drop_last() =~= s.subrange(0, k));
        assert(p.last() == s[k]);
    }
}

/// Parse a trimmed input line as an unsigned 32-bit integer, exactly
/// accepting an optional leading plus sign followed by decimal digits whose
/// value fits.
pub fn parse_u32(s: &str) -> (r: Option<u32>)
    ensures
        parses_to_u32(s@) ==> r == Some((digits_value(unsigned_digits(s@)) as u32)),
        !parses_to_u32(s@) ==> r == None::<u32>,
{
    let len = s.unicode_len();
    let mut start: usize = 0;
    if len > 0 && s.get_char(0) == '+' {
        start = 1;
    }
    if start >= len {
        return None;
    }
    let ghost d = unsigned_digits(s@);
    proof {
        assert(d =~= s@.subrange(start as int, len as int));
    }
    let mut acc: u64 = 0;
    let mut i: usize = start;
    while i < len
        invariant
            start <= i <= len,
            len == s@.len(),
            d == unsigned_digits(s@),
            d =~= s@.subrange(start as int, len as int),
            all_digits(s@.subrange(start as int, i as int)),
            acc == digits_value(s@.subrange(start as int, i as int)),
            acc <= u32::MAX,
        decreases len - i,
    {
        let c = s.get_char(i);
        if !('0' <= c && c <= '9') {
            proof {
                assert(d[i - start] == s@[i as int]);
            }
            return None;
        }
        let dv: u64 = (c as u32 - '0' as u32) as u64;
        let new_acc: u64 = acc * 10 + dv;
        proof {
            let p = s@.subrange(start as int, i + 1);
            assert(p.drop_last() =~= s@.subrange(start as int, i as int));
            assert(p.last() == s@[i as int]);
        }
        if new_acc > (u32::MAX as u64) {
            proof {
                assert(s@.subrange(start as int, i + 1) =~= d.subrange(0, i + 1 - start));
                lemma_digits_value_prefix(d, i + 1 - start);
            }
            return None;
        }
        acc = new_acc;
        i = i + 1;
    }
    proof {
        assert(s@.subrange(start as int, i as int) =~= d);
    }
    Some(acc as u32)
}

} // verus!
