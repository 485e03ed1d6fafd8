//! Splitting a whole listing into lines and parsing every non-empty line.
//!
//! The listing command prints one session per line.  Splitting on `'\n'`
//! always yields one segment more than there are newline characters; empty
//! segments (blank lines, or the tail after a final newline) describe no
//! session and are passed over.  Any malformed non-empty line fails the
//! whole listing: either every session is read, or none is.

use crate::parse::{
    expected_parse_error, line_session, parse_session_line, wf_line, ParseError, SessionView,
    TmuxSession,
};
use vstd::prelude::*;
use vstd::string::StrSliceExecFns;

verus! {

/// The lines of `s`: the segments between `'\n'` characters.
pub open spec fn listing_lines(s: Seq<char>) -> Seq<Seq<char>>
    decreases s.len(),
{
    if s.len() == 0 {
        seq![Seq::<char>::empty()]
    } else if s[0] == '\n' {
        seq![Seq::<char>::empty()] + listing_lines(s.skip(1))
    } else {
        let rest = listing_lines(s.skip(1));
        seq![seq![s[0]] + rest[0]] + rest.skip(1)
    }
}

/// The sessions a single line segment describes: none when it is empty.
pub open spec fn line_entry(l: Seq<char>) -> Seq<SessionView> {
    if l.len() == 0 {
        Seq::empty()
    } else {
        seq![line_session(l)]
    }
}

/// The sessions a sequence of line segments describes, in order.
pub open spec fn sessions_of_lines(lines: Seq<Seq<char>>) -> Seq<SessionView>
    decreases lines.len(),
{
    if lines.len() == 0 {
        Seq::empty()
    } else {
        line_entry(lines[0]) + sessions_of_lines(lines.skip(1))
    }
}

/// Every non-empty segment is a well-formed line.
pub open spec fn wf_lines(lines: Seq<Seq<char>>) -> bool {
    forall|i: int| 0 <= i < lines.len() && lines[i].len() > 0 ==> wf_line(#[trigger] lines[i])
}

/// The sessions a whole listing describes: one per non-empty line, in order.
pub open spec fn listing_sessions(s: Seq<char>) -> Seq<SessionView> {
    sessions_of_lines(listing_lines(s))
}

/// Every non-empty line of the listing is well formed.
pub open spec fn wf_listing(s: Seq<char>) -> bool {
    wf_lines(listing_lines(s))
}

/// The records of a session vector, as mathematical values.
pub open spec fn views_of(v: Seq<TmuxSession>) -> Seq<SessionView> {
    v.map_values(|t: TmuxSession| t@)
}

/// `e` is the parse error of some malformed non-empty line of `s`.
pub open spec fn parse_failure_witness(s: Seq<char>, e: ParseError) -> bool {
    exists|i: int|
        0 <= i < listing_lines(s).len() && (#[trigger] listing_lines(s)[i]).len() > 0 && !wf_line(
            listing_lines(s)[i],
        ) && e == expected_parse_error(listing_lines(s)[i])
}

/// A listing without newlines is one single line.
proof fn lemma_lines_single(s: Seq<char>)
    requires
        forall|i: int| 0 <= i < s.len() ==> s[i] != '\n',
    ensures
        listing_lines(s) =~= seq![s],
    decreases s.len(),
{
    if s.len() == 0 {
        assert(s =~= Seq::<char>::empty());
    } else {
        assert(s[0] != '\n');
        lemma_lines_single(s.skip(1));
        assert(seq![s[0]] + s.skip(1) =~= s);
    }
}

/// Splitting at the first newline peels off the first line.
proof fn lemma_lines_split(a: Seq<char>, b: Seq<char>)
    requires
        forall|i: int| 0 <= i < a.len() ==> a[i] != '\n',
    ensures
        listing_lines(a + seq!['\n'] + b) =~= seq![a] + listing_lines(b),
    decreases a.len(),
{
    let s = a + seq!['\n'] + b;
    if a.len() == 0 {
        assert(a =~= Seq::<char>::empty());
        assert(s[0] == '\n');
        assert(s.skip(1) =~= b);
    } else {
        assert(s[0] == a[0]);
        assert(s.skip(1) =~= a.skip(1) + seq!['\n'] + b);
        lemma_lines_split(a.skip(1), b);
        let rest = listing_lines(s.skip(1));
        assert(rest[0] == a.skip(1));
        assert(seq![s[0]] + rest[0] =~= a);
        assert(rest.skip(1) =~= listing_lines(b));
        assert(listing_lines(s) =~= seq![a] + listing_lines(b));
    }
}

/// `sessions_of_lines` distributes over concatenation.
proof fn lemma_sessions_concat(a: Seq<Seq<char>>, b: Seq<Seq<char>>)
    ensures
        sessions_of_lines(a + b) =~= sessions_of_lines(a) + sessions_of_lines(b),
    decreases a.len(),
{
    if a.len() == 0 {
        assert(a + b =~= b);
    } else {
        assert((a + b)[0] == a[0]);
        assert((a + b).skip(1) =~= a.skip(1) + b);
        lemma_sessions_concat(a.skip(1), b);
    }
}

/// One segment appended to processed lines, at the level of sessions.
proof fn lemma_sessions_push(lines: Seq<Seq<char>>, l: Seq<char>)
    ensures
        sessions_of_lines(lines.push(l)) =~= sessions_of_lines(lines) + line_entry(l),
{
    assert(lines.push(l) =~= lines + seq![l]);
    lemma_sessions_concat(lines, seq![l]);
    assert((seq![l]).skip(1) =~= Seq::<Seq<char>>::empty());
    assert(sessions_of_lines(Seq::<Seq<char>>::empty()) =~= Seq::<SessionView>::empty());
    assert(sessions_of_lines(seq![l]) =~= line_entry(l));
}

/// Parses a whole listing into session records, one per non-empty line.
///
/// Succeeds exactly when every non-empty line is well formed, and then
/// yields the records in line order; otherwise fails with the parse error
/// of a malformed line, reading no partial batch.
pub fn parse_listing(listing: &str) -> (r: Result<Vec<TmuxSession>, ParseError>)
    ensures
        r is Ok <==> wf_listing(listing@),
        r matches Ok(v) ==> views_of(v@) == listing_sessions(listing@),
        r matches Err(e) ==> parse_failure_witness(listing@, e),
{
    let cs = crate::parse::chars_vec(listing);
    let n = cs.len();
    let mut out: Vec<TmuxSession> = Vec::new();
    let mut start: usize = 0;
    let mut k: usize = 0;
    let ghost mut done: Seq<Seq<char>> = Seq::empty();
    proof {
        assert(listing@.skip(0) =~= listing@);
        assert(done + listing_lines(listing@) =~= listing_lines(listing@));
        assert(sessions_of_lines(Seq::<Seq<char>>::empty()) =~= Seq::<SessionView>::empty());
        assert(views_of(out@) =~= Seq::<SessionView>::empty());
    }
    while k < n
        invariant
            start <= k <= n,
            n == cs@.len(),
            cs@ == listing@,
            forall|t: int| start <= t < k ==> cs@[t] != '\n',
            listing_lines(listing@) =~= done + listing_lines(listing@.skip(start as int)),
            wf_lines(done),
            views_of(out@) =~= sessions_of_lines(done),
        decreases n - k,
    {
        if cs[k] == '\n' {
            let ghost cur = listing@.subrange(start as int, k as int);
            proof {
                assert(listing@.skip(start as int) =~= cur + seq!['\n'] + listing@.skip(
                    k as int + 1,
                ));
                lemma_lines_split(cur, listing@.skip(k as int + 1));
            }
            if start < k {
                let line = listing.substring_char(start, k);
                proof {
                    assert(line@ =~= cur);
                }
                match parse_session_line(line) {
                    Ok(rec) => {
                        out.push(rec);
                        proof {
                            lemma_sessions_push(done, cur);
                            done = done.push(cur);
                        }
                    },
                    Err(e) => {
                        proof {
                            let i = done.len() as int;
                            assert(listing_lines(listing@)[i] == cur);
                            assert(!wf_listing(listing@));
                        }
                        return Err(e);
                    },
                }
            } else {
                proof {
                    lemma_sessions_push(done, cur);
                    done = done.push(cur);
                }
            }
            start = k + 1;
        }
        k += 1;
    }
    let ghost cur = listing@.subrange(start as int, n as int);
    proof {
        assert(listing@.skip(start as int) =~= cur);
        assert forall|i: int| 0 <= i < cur.len() implies cur[i] != '\n' by {
            assert(cur[i] == listing@[start + i]);
        }
        lemma_lines_single(cur);
    }
    if start < n {
        let line = listing.substring_char(start, n);
        proof {
            assert(line@ =~= cur);
        }
        match parse_session_line(line) {
            Ok(rec) => {
                out.push(rec);
                proof {
                    lemma_sessions_push(done, cur);
                    done = done.push(cur);
                }
            },
            Err(e) => {
                proof {
                    let i = done.len() as int;
                    assert(listing_lines(listing@)[i] == cur);
                    assert(!wf_listing(listing@));
                }
                return Err(e);
            },
        }
    } else {
        proof {
            lemma_sessions_push(done, cur);
            done = done.push(cur);
        }
    }
    proof {
        assert(listing_lines(listing@) =~= done);
        assert(views_of(out@) =~= listing_sessions(listing@));
    }
    Ok(out)
}

} // verus!
