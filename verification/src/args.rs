//! Command-line argument handling: a bare decimal number picks the start
//! level, clamped into the valid range, and `--ascii` switches the renderer
//! to the wide glyphs.
use vstd::prelude::*;

verus! {

/// A decimal digit character.
pub open spec fn is_digit(c: char) -> bool {
    48 <= c as u32 <= 57
}

/// The numeric value of a digit character.
pub open spec fn digit_val(c: char) -> int {
    c as u32 - 48
}

/// Every character of the string is a decimal digit.
pub open spec fn all_digits(s: Seq<char>) -> bool {
    forall|i: int| 0 <= i < s.len() ==> is_digit(#[trigger] s[i])
}

/// The number a string of decimal digits denotes.
pub open spec fn digits_val(s: Seq<char>) -> int
    decreases s.len(),
{
    if s.len() == 0 {
        0
    } else {
        digits_val(s.drop_last()) * 10 + digit_val(s.last())
    }
}

/// A digit string's value is never negative.
proof fn lemma_digits_val_nonneg(s: Seq<char>)
    requires
        all_digits(s),
    ensures
        digits_val(s) >= 0,
    decreases s.len(),
{
    if s.len() > 0 {
        assert(all_digits(s.drop_last()));
        lemma_digits_val_nonneg(s.drop_last());
    }
}

/// A digit string's value only grows as more digits follow: the whole string
/// is worth at least any of its prefixes.
proof fn lemma_digits_val_prefix(s: Seq<char>, i: int)
    requires
        all_digits(s),
        0 <= i <= s.len(),
    ensures
        digits_val(s) >= digits_val(s.take(i)),
    decreases s.len() - i,
{
    if i == s.len() {
        assert(s.take(i) =~= s);
    } else {
        let t = s.take(i + 1);
        assert(t.drop_last() =~= s.take(i));
        assert(all_digits(s.take(i)));
        lemma_digits_val_nonneg(s.take(i));
        assert(digits_val(t) == digits_val(s.take(i)) * 10 + digit_val(t.last()));
        lemma_digits_val_prefix(s, i + 1);
    }
}

/// The digit part of a numeral: everything after an optional leading plus
/// sign.
pub open spec fn digits_of(s: Seq<char>) -> Seq<char> {
    if s.len() > 0 && s[0] == '+' {
        s.subrange(1, s.len() as int)
    } else {
        s
    }
}

/// A decimal numeral as `str::parse::<u32>` reads one: an optional leading
/// plus sign followed by one digit or more.
pub open spec fn is_numeral(s: Seq<char>) -> bool {
    digits_of(s).len() > 0 && all_digits(digits_of(s))
}

/// The number a numeral denotes.
pub open spec fn numeral_val(s: Seq<char>) -> int {
    digits_val(digits_of(s))
}

/// Parses a decimal numeral (an optional plus sign, then digits) into a
/// `u32`; anything else, and any value over `u32::MAX`, yields `None`.
pub fn parse_u32(s: &str) -> (r: Option<u32>)
    ensures
        r is Some <==> (is_numeral(s@) && numeral_val(s@) <= u32::MAX),
        r is Some ==> r.unwrap() as int == numeral_val(s@),
{
    let n = s.unicode_len();
    if n == 0 {
        return None;
    }
    let first = s.get_char(0);
    let start: usize = if first == '+' {
        1
    } else {
        0
    };
    if n <= start {
        return None;
    }
    let ghost d = digits_of(s@);
    proof {
        assert(d =~= s@.subrange(start as int, n as int));
    }
    let mut acc: u32 = 0;
    let mut i: usize = start;
    while i < n
        invariant
            start <= i <= n,
            n == s@.len(),
            d == digits_of(s@),
            d =~= s@.subrange(start as int, n as int),
            all_digits(d.take(i - start)),
            acc as int == digits_val(d.take(i - start)),
        decreases n - i,
    {
        let c = s.get_char(i);
        proof {
            assert(d[i - start] == s@[i as int]);
        }
        let cv = c as u32;
        if cv < 48 || cv > 57 {
            proof {
                assert(!is_digit(d[i - start]));
            }
            return None;
        }
        let dg = cv - 48;
        proof {
            assert(d.take(i + 1 - start).drop_last() =~= d.take(i - start));
            assert(d.take(i + 1 - start).last() == d[i - start]);
            assert(all_digits(d.take(i + 1 - start)));
        }
        if acc > (u32::MAX - dg) / 10 {
            proof {
                assert(acc as int * 10 + dg > u32::MAX) by {
                    let q = (u32::MAX - dg) / 10;
                    assert(acc >= q + 1);
                    assert((q + 1) as int * 10 > (u32::MAX - dg) as int) by (nonlinear_arith)
                        requires
                            q == (u32::MAX - dg) / 10,
                            dg <= 9,
                    ;
                    assert(acc as int * 10 >= (q + 1) as int * 10) by (nonlinear_arith)
                        requires
                            acc >= q + 1,
                    ;
                }
                if all_digits(d) {
                    lemma_digits_val_prefix(d, i + 1 - start);
                    assert(digits_val(d) > u32::MAX);
                }
            }
            return None;
        }
        proof {
            let q = (u32::MAX - dg) / 10;
            assert(q * 10 <= (u32::MAX - dg) as int) by (nonlinear_arith)
                requires
                    q == (u32::MAX - dg) / 10,
                    dg <= 9,
            ;
            assert(acc as int * 10 <= q * 10) by (nonlinear_arith)
                requires
                    acc <= q,
            ;
        }
        acc = acc * 10 + dg;
        i += 1;
    }
    proof {
        assert(d.take(n - start) =~= d);
    }
    Some(acc)
}

/// The views of a list of strings.
pub open spec fn string_views(args: Seq<String>) -> Seq<Seq<char>> {
    Seq::new(args.len(), |i: int| args[i]@)
}

/// `lv` clamped into `[1, maxl]`.
pub open spec fn clamp_level(lv: int, maxl: u32) -> u32 {
    if lv < 1 {
        1
    } else if lv > maxl {
        maxl
    } else {
        lv as u32
    }
}

/// The start level and glyph choice after the arguments from index `i` on
/// are applied to the current state.
pub open spec fn parse_args_from(
    args: Seq<Seq<char>>,
    i: int,
    level: u32,
    ascii: bool,
    maxl: u32,
) -> (u32, bool)
    decreases args.len() - i,
{
    if i < 0 || i >= args.len() {
        (level, ascii)
    } else {
        let a = args[i];
        if a == "--ascii"@ {
            parse_args_from(args, i + 1, level, true, maxl)
        } else if is_numeral(a) && numeral_val(a) <= u32::MAX {
            parse_args_from(args, i + 1, clamp_level(numeral_val(a), maxl), ascii, maxl)
        } else {
            parse_args_from(args, i + 1, level, ascii, maxl)
        }
    }
}

/// What `parse_args` yields: the arguments after the program name, applied
/// in order to the defaults (level 1, narrow glyphs).
pub open spec fn spec_parse_args(args: Seq<Seq<char>>, maxl: u32) -> (u32, bool) {
    parse_args_from(args, 1, 1, false, maxl)
}

/// Reads the start level and the glyph choice from the command line. Later
/// arguments win; a number is clamped into `[1, max_level]`.
pub fn parse_args(args: &[String], max_level: u32) -> (r: (u32, bool))
    requires
        max_level >= 1,
    ensures
        r == spec_parse_args(string_views(args@), max_level),
{
    let ghost av = string_views(args@);
    let mut start_level: u32 = 1;
    let mut use_ascii = false;
    let mut i: usize = 1;
    while i < args.len()
        invariant
            1 <= i,
            i <= args.len() || i == 1,
            parse_args_from(av, i as int, start_level, use_ascii, max_level) == parse_args_from(
                av,
                1,
                1,
                false,
                max_level,
            ),
        decreases args.len() - i,
    {
        let ghost lv0 = start_level;
        let ghost as0 = use_ascii;
        let arg = &args[i];
        proof {
            reveal_strlit("--ascii");
            assert(av[i as int] == arg@);
        }
        if *arg == "--ascii".to_owned() {
            use_ascii = true;
        } else {
            match parse_u32(arg.as_str()) {
                Some(level) => {
                    start_level = if level < 1 {
                        1
                    } else if level > max_level {
                        max_level
                    } else {
                        level
                    };
                },
                None => {},
            }
        }
        proof {
            assert(parse_args_from(av, i as int, lv0, as0, max_level) == parse_args_from(
                av,
                i as int + 1,
                start_level,
                use_ascii,
                max_level,
            ));
        }
        i += 1;
    }
    (start_level, use_ascii)
}

} // verus!
