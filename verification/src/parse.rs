//! Parsing of one listing line, `name:windows:created`, into a typed
//! session record.
//!
//! A line is well formed when it holds exactly two `:` separators, a
//! non-empty name before the first one, a decimal window count between the
//! two that fits in `usize`, and an optionally negated decimal epoch value
//! after the second one that fits in `i64`.  A malformed line is rejected
//! with an error naming the first field at fault.

use vstd::prelude::*;
use vstd::string::StrSliceExecFns;

verus! {

/// A decimal digit character, `'0'` through `'9'`.
pub open spec fn is_digit(c: char) -> bool {
    48 <= c as u32 <= 57
}

/// Numeric value of a digit character.
pub open spec fn digit_val(c: char) -> nat {
    (c as u32 - 48) as nat
}

/// Value of a character string read as a base-ten numeral.
pub open spec fn digits_val(s: Seq<char>) -> nat
    decreases s.len(),
{
    if s.len() == 0 {
        0
    } else {
        digits_val(s.drop_last()) * 10 + digit_val(s.last())
    }
}

/// A non-empty string of decimal digits.
pub open spec fn is_digits(s: Seq<char>) -> bool {
    s.len() > 0 && (forall|i: int| 0 <= i < s.len() ==> is_digit(#[trigger] s[i]))
}

/// A valid window-count field: a digit string whose value fits in `usize`.
pub open spec fn is_windows_token(s: Seq<char>) -> bool {
    is_digits(s) && digits_val(s) <= usize::MAX
}

/// A valid epoch field: a digit string, optionally preceded by `-`, whose
/// value fits in `i64`.
pub open spec fn is_epoch_token(s: Seq<char>) -> bool {
    if s.len() > 0 && s[0] == '-' {
        is_digits(s.skip(1)) && digits_val(s.skip(1)) <= i64::MAX as nat + 1
    } else {
        is_digits(s) && digits_val(s) <= i64::MAX as nat
    }
}

/// Signed value of an epoch field.
pub open spec fn epoch_val(s: Seq<char>) -> int {
    if s.len() > 0 && s[0] == '-' {
        -(digits_val(s.skip(1)) as int)
    } else {
        digits_val(s) as int
    }
}

/// `i` and `j` are the positions of the only two `:` separators of `s`.
pub open spec fn is_sep_pair(s: Seq<char>, i: int, j: int) -> bool {
    &&& 0 <= i < j < s.len()
    &&& s[i] == ':'
    &&& s[j] == ':'
    &&& forall|k: int| 0 <= k < s.len() && k != i && k != j ==> s[k] != ':'
}

/// `s` holds exactly two `:` separators.
pub open spec fn has_sep_pair(s: Seq<char>) -> bool {
    exists|i: int, j: int| is_sep_pair(s, i, j)
}

/// The positions of the two separators, where they exist.
pub open spec fn sep_pos(s: Seq<char>) -> (int, int) {
    choose|i: int, j: int| is_sep_pair(s, i, j)
}

/// The name field: everything before the first separator.
pub open spec fn line_name(s: Seq<char>) -> Seq<char> {
    s.take(sep_pos(s).0)
}

/// The window-count field: everything between the separators.
pub open spec fn line_windows_token(s: Seq<char>) -> Seq<char> {
    s.subrange(sep_pos(s).0 + 1, sep_pos(s).1)
}

/// The epoch field: everything after the second separator.
pub open spec fn line_epoch_token(s: Seq<char>) -> Seq<char> {
    s.skip(sep_pos(s).1 + 1)
}

/// A well-formed listing line.
pub open spec fn wf_line(s: Seq<char>) -> bool {
    &&& has_sep_pair(s)
    &&& sep_pos(s).0 > 0
    &&& is_windows_token(line_windows_token(s))
    &&& is_epoch_token(line_epoch_token(s))
}

/// Window count of a well-formed line.
pub open spec fn line_windows(s: Seq<char>) -> nat {
    digits_val(line_windows_token(s))
}

/// Epoch seconds of a well-formed line.
pub open spec fn line_epoch(s: Seq<char>) -> int {
    epoch_val(line_epoch_token(s))
}

/// A session as reported by one well-formed listing line.
#[derive(Debug, PartialEq, Eq)]
pub struct TmuxSession {
    /// Session name, the text before the first separator.
    pub name: String,
    /// Number of windows the session holds.
    pub windows: usize,
    /// Creation time in Unix epoch seconds.
    pub created_epoch: i64,
}

/// Mathematical image of a session record.
pub struct SessionView {
    pub name: Seq<char>,
    pub windows: nat,
    pub created_epoch: int,
}

impl View for TmuxSession {
    type V = SessionView;

    open spec fn view(&self) -> SessionView {
        SessionView {
            name: self.name@,
            windows: self.windows as nat,
            created_epoch: self.created_epoch as int,
        }
    }
}

/// The record a well-formed line describes.
pub open spec fn line_session(s: Seq<char>) -> SessionView {
    SessionView { name: line_name(s), windows: line_windows(s) as nat, created_epoch: line_epoch(s) }
}

/// Why a listing line was rejected: the first field at fault.
#[derive(Clone, Copy, Debug, PartialEq, Eq, Structural)]
pub enum ParseError {
    /// Not exactly two `:` separators.
    Fields,
    /// Empty name field.
    Name,
    /// Window-count field is not a decimal numeral that fits in `usize`.
    Windows,
    /// Epoch field is not a signed decimal numeral that fits in `i64`.
    Timestamp,
}

/// The error a malformed line is rejected with.
pub open spec fn expected_parse_error(s: Seq<char>) -> ParseError {
    if !has_sep_pair(s) {
        ParseError::Fields
    } else if sep_pos(s).0 <= 0 {
        ParseError::Name
    } else if !is_windows_token(line_windows_token(s)) {
        ParseError::Windows
    } else {
        ParseError::Timestamp
    }
}

/// The separator pair of a line is unique.
proof fn lemma_sep_pair_unique(s: Seq<char>, i: int, j: int, i2: int, j2: int)
    requires
        is_sep_pair(s, i, j),
        is_sep_pair(s, i2, j2),
    ensures
        i == i2,
        j == j2,
{
    assert(s[i2] == ':');
    assert(s[j2] == ':');
    assert(i2 == i || i2 == j);
    assert(j2 == i || j2 == j);
}

/// Where a separator pair is shown, `sep_pos` yields it.
proof fn lemma_sep_pos_is(s: Seq<char>, i: int, j: int)
    requires
        is_sep_pair(s, i, j),
    ensures
        has_sep_pair(s),
        sep_pos(s).0 == i,
        sep_pos(s).1 == j,
{
    assert(has_sep_pair(s));
    let (i2, j2) = choose|a: int, b: int| is_sep_pair(s, a, b);
    assert(is_sep_pair(s, i2, j2));
    lemma_sep_pair_unique(s, i, j, i2, j2);
}

/// A numeral's value only grows as digits are appended.
proof fn lemma_digits_val_prefix(s: Seq<char>, m: int)
    requires
        0 <= m <= s.len(),
    ensures
        digits_val(s.take(m)) <= digits_val(s),
    decreases s.len(),
{
    if m < s.len() {
        assert(s.drop_last().take(m) =~= s.take(m));
        lemma_digits_val_prefix(s.drop_last(), m);
    } else {
        assert(s.take(m) =~= s);
    }
}

/// Assembling a line from its three fields and parsing it are inverse:
/// gluing a non-empty, separator-free name, a window-count numeral and an
/// epoch numeral with `:` yields a well-formed line that reads back to
/// exactly those fields.
pub proof fn lemma_line_round_trip(name: Seq<char>, wtok: Seq<char>, etok: Seq<char>)
    requires
        name.len() > 0,
        forall|i: int| 0 <= i < name.len() ==> name[i] != ':',
        is_windows_token(wtok),
        is_epoch_token(etok),
    ensures
        ({
            let line = name + seq![':'] + wtok + seq![':'] + etok;
            &&& wf_line(line)
            &&& line_name(line) == name
            &&& line_windows(line) == digits_val(wtok)
            &&& line_epoch(line) == epoch_val(etok)
        }),
{
    let line = name + seq![':'] + wtok + seq![':'] + etok;
    let i = name.len() as int;
    let j = i + 1 + wtok.len() as int;
    assert(line[i] == ':');
    assert(line[j] == ':');
    assert forall|t: int| 0 <= t < etok.len() implies etok[t] == '-' || is_digit(etok[t]) by {
        if etok[0] == '-' {
            if t >= 1 {
                assert(etok.skip(1)[t - 1] == etok[t]);
                assert(is_digit(etok.skip(1)[t - 1]));
            }
        } else {
            assert(is_digit(etok[t]));
        }
    }
    assert forall|k: int| 0 <= k < line.len() && k != i && k != j implies line[k] != ':' by {
        if k < i {
            assert(line[k] == name[k]);
        } else if k < j {
            assert(line[k] == wtok[k - i - 1]);
            assert(is_digit(wtok[k - i - 1]));
        } else {
            assert(line[k] == etok[k - j - 1]);
        }
    }
    assert(is_sep_pair(line, i, j));
    lemma_sep_pos_is(line, i, j);
    assert(line_name(line) =~= name);
    assert(line_windows_token(line) =~= wtok);
    assert(line_epoch_token(line) =~= etok);
}

/// The characters of a string slice, in order.
pub(crate) fn chars_vec(s: &str) -> (r: Vec<char>)
    ensures
        r@ == s@,
{
    let n = s.unicode_len();
    let mut v: Vec<char> = Vec::new();
    let mut i: usize = 0;
    while i < n
        invariant
            i <= n,
            n == s@.len(),
            v@ == s@.take(i as int),
        decreases n - i,
    {
        let c = s.get_char(i);
        v.push(c);
        i = i + 1;
        proof {
            assert(s@.take(i as int) =~= s@.take(i as int - 1).push(s@[i as int - 1]));
        }
    }
    proof {
        assert(s@.take(n as int) =~= s@);
    }
    v
}

/// Parses one listing line into a session record.
///
/// Succeeds exactly on well-formed lines; a malformed line yields the error
/// naming the first field at fault.
#[verifier::rlimit(50)]
pub fn parse_session_line(line: &str) -> (r: Result<TmuxSession, ParseError>)
    ensures
        r is Ok <==> wf_line(line@),
        r matches Ok(rec) ==> rec@ == line_session(line@),
        r matches Err(e) ==> e == expected_parse_error(line@),
{
    let cs = chars_vec(line);
    let n = cs.len();

    // Find the two separators, or reject.
    let mut p1: usize = 0;
    let mut p2: usize = 0;
    let mut seen: usize = 0;
    let mut k: usize = 0;
    while k < n
        invariant
            k <= n,
            n == cs@.len(),
            cs@ == line@,
            seen <= 2,
            seen == 0 ==> forall|t: int| 0 <= t < k ==> cs@[t] != ':',
            seen == 1 ==> p1 < k && cs@[p1 as int] == ':' && (forall|t: int|
                0 <= t < k && t != p1 ==> cs@[t] != ':'),
            seen == 2 ==> p1 < p2 < k && cs@[p1 as int] == ':' && cs@[p2 as int] == ':' && (
            forall|t: int| 0 <= t < k && t != p1 && t != p2 ==> cs@[t] != ':'),
        decreases n - k,
    {
        if cs[k] == ':' {
            if seen == 0 {
                p1 = k;
                seen = 1;
            } else if seen == 1 {
                p2 = k;
                seen = 2;
            } else {
                proof {
                    assert(!has_sep_pair(line@)) by {
                        if has_sep_pair(line@) {
                            let (i, j) = choose|i: int, j: int| is_sep_pair(line@, i, j);
                            assert(is_sep_pair(line@, i, j));
                            assert(p1 == i || p1 == j);
                            assert(p2 == i || p2 == j);
                            assert(k == i || k == j);
                        }
                    }
                }
                return Err(ParseError::Fields);
            }
        }
        k += 1;
    }
    if seen != 2 {
        proof {
            assert(!has_sep_pair(line@)) by {
                if has_sep_pair(line@) {
                    let (i, j) = choose|i: int, j: int| is_sep_pair(line@, i, j);
                    assert(is_sep_pair(line@, i, j));
                    if seen == 1 {
                        assert(i == p1 && j == p1);
                    }
                }
            }
        }
        return Err(ParseError::Fields);
    }
    proof {
        assert(is_sep_pair(line@, p1 as int, p2 as int));
        lemma_sep_pos_is(line@, p1 as int, p2 as int);
    }

    // Name field: must be non-empty.
    if p1 == 0 {
        return Err(ParseError::Name);
    }

    // Window-count field.
    let ghost wtok = line_windows_token(line@);
    proof {
        assert(wtok =~= line@.subrange(p1 as int + 1, p2 as int));
    }
    if p1 + 1 == p2 {
        proof {
            assert(!is_digits(wtok));
        }
        return Err(ParseError::Windows);
    }
    let mut w: usize = 0;
    let mut kw: usize = p1 + 1;
    while kw < p2
        invariant
            p1 + 1 <= kw <= p2 < n,
            n == cs@.len(),
            cs@ == line@,
            p1 > 0,
            is_sep_pair(line@, p1 as int, p2 as int),
            sep_pos(line@) == (p1 as int, p2 as int),
            wtok == line_windows_token(line@),
            wtok =~= line@.subrange(p1 as int + 1, p2 as int),
            forall|t: int| p1 + 1 <= t < kw ==> is_digit(#[trigger] line@[t]),
            w == digits_val(line@.subrange(p1 as int + 1, kw as int)),
        decreases p2 - kw,
    {
        let c = cs[kw];
        let d = c as u32;
        if d < 48 || d > 57 {
            proof {
                assert(wtok[kw - (p1 + 1) as int] == line@[kw as int]);
                assert(!is_digit(wtok[kw - (p1 + 1) as int]));
                assert(!is_digits(wtok));
            }
            return Err(ParseError::Windows);
        }
        let dv = (d - 48) as usize;
        proof {
            assert(line@.subrange(p1 as int + 1, kw as int + 1).drop_last() =~= line@.subrange(
                p1 as int + 1,
                kw as int,
            ));
            assert(line@.subrange(p1 as int + 1, kw as int + 1).last() == line@[kw as int]);
            assert(wtok.take(kw + 1 - (p1 + 1) as int) =~= line@.subrange(
                p1 as int + 1,
                kw as int + 1,
            ));
        }
        let step = match w.checked_mul(10) {
            Some(x) => x.checked_add(dv),
            None => None,
        };
        match step {
            Some(x) => {
                w = x;
            },
            None => {
                proof {
                    assert(digits_val(wtok.take(kw + 1 - (p1 + 1) as int)) > usize::MAX);
                    lemma_digits_val_prefix(wtok, kw + 1 - (p1 + 1) as int);
                    assert(!is_windows_token(wtok));
                }
                return Err(ParseError::Windows);
            },
        }
        kw += 1;
    }
    proof {
        assert(line@.subrange(p1 as int + 1, p2 as int) =~= wtok);
        assert(is_windows_token(wtok));
    }

    // Epoch field.
    let ghost etok = line_epoch_token(line@);
    proof {
        assert(etok =~= line@.subrange(p2 as int + 1, n as int));
    }
    let mut ke: usize = p2 + 1;
    let neg = if ke < n {
        cs[ke] == '-'
    } else {
        false
    };
    if neg {
        ke += 1;
    }
    let ghost dstart = ke as int;
    let ghost dtok = if neg {
        etok.skip(1)
    } else {
        etok
    };
    proof {
        assert(dtok =~= line@.subrange(dstart, n as int));
    }
    if ke == n {
        proof {
            assert(!is_digits(dtok));
            assert(!is_epoch_token(etok));
        }
        return Err(ParseError::Timestamp);
    }
    let limit: u64 = if neg {
        9223372036854775808
    } else {
        9223372036854775807
    };
    let mut mag: u64 = 0;
    let mut kd: usize = ke;
    while kd < n
        invariant
            dstart <= kd <= n,
            n == cs@.len(),
            cs@ == line@,
            p1 > 0,
            is_sep_pair(line@, p1 as int, p2 as int),
            sep_pos(line@) == (p1 as int, p2 as int),
            is_windows_token(line_windows_token(line@)),
            etok == line_epoch_token(line@),
            etok =~= line@.subrange(p2 as int + 1, n as int),
            neg ==> etok.len() > 0 && etok[0] == '-' && dstart == p2 + 2,
            !neg ==> dstart == p2 + 1 && (etok.len() == 0 || etok[0] != '-'),
            dtok == (if neg {
                etok.skip(1)
            } else {
                etok
            }),
            dtok =~= line@.subrange(dstart, n as int),
            dstart < n,
            limit == (if neg {
                (i64::MAX as u64 + 1) as int
            } else {
                i64::MAX as int
            }),
            forall|t: int| dstart <= t < kd ==> is_digit(#[trigger] line@[t]),
            mag == digits_val(line@.subrange(dstart, kd as int)),
            mag <= limit,
        decreases n - kd,
    {
        let c = cs[kd];
        let d = c as u32;
        if d < 48 || d > 57 {
            proof {
                assert(dtok[kd - dstart] == line@[kd as int]);
                assert(!is_digit(dtok[kd - dstart]));
                assert(!is_digits(dtok));
                assert(!is_epoch_token(etok));
            }
            return Err(ParseError::Timestamp);
        }
        let dv = (d - 48) as u64;
        proof {
            assert(line@.subrange(dstart, kd as int + 1).drop_last() =~= line@.subrange(
                dstart,
                kd as int,
            ));
            assert(line@.subrange(dstart, kd as int + 1).last() == line@[kd as int]);
            assert(dtok.take(kd as int + 1 - dstart) =~= line@.subrange(dstart, kd as int + 1));
        }
        let step = match mag.checked_mul(10) {
            Some(x) => x.checked_add(dv),
            None => None,
        };
        match step {
            Some(x) if x <= limit => {
                mag = x;
            },
            _ => {
                proof {
                    assert(digits_val(dtok.take(kd as int + 1 - dstart)) > limit);
                    lemma_digits_val_prefix(dtok, kd as int + 1 - dstart);
                    assert(!is_epoch_token(etok));
                }
                return Err(ParseError::Timestamp);
            },
        }
        kd += 1;
    }
    proof {
        assert(line@.subrange(dstart, n as int) =~= dtok);
        assert(is_digits(dtok));
        assert(is_epoch_token(etok));
    }
    let created: i64 = if neg {
        if mag == 9223372036854775808 {
            i64::MIN
        } else {
            -(mag as i64)
        }
    } else {
        mag as i64
    };
    proof {
        assert(created as int == epoch_val(etok));
    }

    // Assemble the record.
    let name_str = line.substring_char(0, p1);
    let name = String::from_str(name_str);
    proof {
        assert(name@ =~= line_name(line@));
    }
    let rec = TmuxSession { name, windows: w, created_epoch: created };
    proof {
        assert(wf_line(line@));
        assert(rec@ == line_session(line@));
    }
    Ok(rec)
}

} // verus!
