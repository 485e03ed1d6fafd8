//! Building the response batch for one search request.
//!
//! Each session becomes one append message, numbered by its position in
//! the listing, and the batch ends with the finished marker.  The query
//! text plays no part in what is returned: every listed session is always
//! reported, whatever the query says.

use crate::listing::{
    listing_sessions, parse_failure_witness, parse_listing, views_of, wf_listing,
};
use crate::parse::{ParseError, SessionView, TmuxSession};
use crate::timefmt::local_time_label;
use vstd::prelude::*;
use vstd::string::StringExecFns;

verus! {

/// The numeral character of a single decimal digit.
pub open spec fn dec_digit_char(d: nat) -> char {
    if d == 0 {
        '0'
    } else if d == 1 {
        '1'
    } else if d == 2 {
        '2'
    } else if d == 3 {
        '3'
    } else if d == 4 {
        '4'
    } else if d == 5 {
        '5'
    } else if d == 6 {
        '6'
    } else if d == 7 {
        '7'
    } else if d == 8 {
        '8'
    } else {
        '9'
    }
}

/// The decimal numeral of `n`, without leading zeros.
pub open spec fn dec_str(n: nat) -> Seq<char>
    decreases n,
{
    if n < 10 {
        seq![dec_digit_char(n)]
    } else {
        dec_str(n / 10).push(dec_digit_char(n % 10))
    }
}

/// The display name of a result row: the attach prefix, then the session
/// name.
pub open spec fn result_name(session_name: Seq<char>) -> Seq<char> {
    "Attach to session: "@ + session_name
}

/// The description of a result row: the window count, then the rendered
/// creation time.
pub open spec fn result_description(windows: nat, time_label: Seq<char>) -> Seq<char> {
    dec_str(windows) + " Windows Time: "@ + time_label
}

/// One row sent back to the host for one session.
#[derive(Debug, PartialEq, Eq)]
pub struct SearchResult {
    /// Position of the session in this batch, counted from zero.
    pub id: u32,
    /// Display name of the row.
    pub name: String,
    /// Secondary line of the row.
    pub description: String,
    /// Icon reference: always absent here.
    pub icon: Option<String>,
}

/// One outbound message of a search's response batch.
#[derive(Debug, PartialEq, Eq)]
pub enum Response {
    /// One more result row.
    Append(SearchResult),
    /// The batch is complete.
    Finished,
}

/// `resp` is the append message for session `s` at position `i`, with the
/// given rendered creation time.
pub open spec fn is_append_for(resp: Response, i: int, s: SessionView, time_label: Seq<char>) -> bool {
    &&& resp matches Response::Append(r)
    &&& r.id == i
    &&& r.name@ == result_name(s.name)
    &&& r.description@ == result_description(s.windows, time_label)
    &&& r.icon is None
}

/// The message at position `i` of `rs` is the append message for session
/// `s`, under some rendered creation time.
pub open spec fn has_append_for(rs: Seq<Response>, i: int, s: SessionView) -> bool {
    exists|time_label: Seq<char>| is_append_for(rs[i], i, s, time_label)
}

/// `rs` is a complete batch for `sessions`: one append per session, in
/// order and numbered from zero, then exactly one finished marker.
pub open spec fn is_batch_for(rs: Seq<Response>, sessions: Seq<SessionView>) -> bool {
    &&& rs.len() == sessions.len() + 1
    &&& rs[sessions.len() as int] is Finished
    &&& forall|i: int| 0 <= i < sessions.len() ==> has_append_for(rs, i, sessions[i])
}

/// Why a search produced no batch.
#[derive(Clone, Copy, Debug, PartialEq, Eq, Structural)]
pub enum SearchError {
    /// A non-empty listing line was malformed: the whole search fails.
    Parse(ParseError),
    /// The creation time of some listed session could not be rendered.
    Time,
    /// More sessions than a result index can number.
    TooManySessions,
}

/// Every result name carries the attach prefix.
pub proof fn lemma_result_name_prefix(session_name: Seq<char>)
    ensures
        result_name(session_name).len() >= "Attach to session: "@.len(),
        result_name(session_name).take("Attach to session: "@.len() as int) == "Attach to session: "@,
{
    assert(result_name(session_name).take("Attach to session: "@.len() as int)
        =~= "Attach to session: "@);
}

/// The one-character numeral of a single digit.
fn digit_str(d: usize) -> (r: &'static str)
    requires
        d < 10,
    ensures
        r@ == seq![dec_digit_char(d as nat)],
{
    if d == 0 {
        proof {
            reveal_strlit("0");
            assert("0"@ =~= seq![dec_digit_char(d as nat)]);
        }
        "0"
    } else if d == 1 {
        proof {
            reveal_strlit("1");
            assert("1"@ =~= seq![dec_digit_char(d as nat)]);
        }
        "1"
    } else if d == 2 {
        proof {
            reveal_strlit("2");
            assert("2"@ =~= seq![dec_digit_char(d as nat)]);
        }
        "2"
    } else if d == 3 {
        proof {
            reveal_strlit("3");
            assert("3"@ =~= seq![dec_digit_char(d as nat)]);
        }
        "3"
    } else if d == 4 {
        proof {
            reveal_strlit("4");
            assert("4"@ =~= seq![dec_digit_char(d as nat)]);
        }
        "4"
    } else if d == 5 {
        proof {
            reveal_strlit("5");
            assert("5"@ =~= seq![dec_digit_char(d as nat)]);
        }
        "5"
    } else if d == 6 {
        proof {
            reveal_strlit("6");
            assert("6"@ =~= seq![dec_digit_char(d as nat)]);
        }
        "6"
    } else if d == 7 {
        proof {
            reveal_strlit("7");
            assert("7"@ =~= seq![dec_digit_char(d as nat)]);
        }
        "7"
    } else if d == 8 {
        proof {
            reveal_strlit("8");
            assert("8"@ =~= seq![dec_digit_char(d as nat)]);
        }
        "8"
    } else {
        proof {
            reveal_strlit("9");
            assert("9"@ =~= seq![dec_digit_char(d as nat)]);
        }
        "9"
    }
}

/// Renders `n` in decimal.
fn dec_string(n: usize) -> (r: String)
    ensures
        r@ == dec_str(n as nat),
    decreases n,
{
    if n < 10 {
        String::from_str(digit_str(n))
    } else {
        let mut s = dec_string(n / 10);
        s.append(digit_str(n % 10));
        proof {
            assert(dec_str((n as nat) / 10).push(dec_digit_char((n as nat) % 10)) =~= dec_str(
                (n as nat) / 10,
            ) + seq![dec_digit_char((n as nat) % 10)]);
        }
        s
    }
}

/// Builds the result row of one session, given its position and its
/// rendered creation time.
pub fn make_result(id: u32, session: &TmuxSession, time_label: &str) -> (r: SearchResult)
    ensures
        r.id == id,
        r.name@ == result_name(session.name@),
        r.description@ == result_description(session.windows as nat, time_label@),
        r.icon is None,
{
    let mut name = String::from_str("Attach to session: ");
    name.append(session.name.as_str());
    let mut description = dec_string(session.windows);
    description.append(" Windows Time: ");
    description.append(time_label);
    proof {
        assert(description@ =~= result_description(session.windows as nat, time_label@));
    }
    SearchResult { id, name, description, icon: None }
}

/// Builds the full response batch for the given sessions: one append per
/// session, numbered from zero in order, then the finished marker.
pub fn build_responses(sessions: &Vec<TmuxSession>, time_labels: &Vec<String>) -> (r: Vec<Response>)
    requires
        time_labels@.len() == sessions@.len(),
        sessions@.len() <= u32::MAX,
    ensures
        r@.len() == sessions@.len() + 1,
        r@[sessions@.len() as int] is Finished,
        forall|i: int|
            0 <= i < sessions@.len() ==> is_append_for(
                #[trigger] r@[i],
                i,
                sessions@[i]@,
                time_labels@[i]@,
            ),
{
    let mut out: Vec<Response> = Vec::new();
    let mut i: usize = 0;
    while i < sessions.len()
        invariant
            i <= sessions@.len(),
            time_labels@.len() == sessions@.len(),
            sessions@.len() <= u32::MAX,
            out@.len() == i,
            forall|t: int|
                0 <= t < i ==> is_append_for(
                    #[trigger] out@[t],
                    t,
                    sessions@[t]@,
                    time_labels@[t]@,
                ),
        decreases sessions@.len() - i,
    {
        let row = make_result(i as u32, &sessions[i], time_labels[i].as_str());
        out.push(Response::Append(row));
        i += 1;
    }
    out.push(Response::Finished);
    out
}

/// The text a search works on: the listing command's output where it ran,
/// the fixed fallback text where it could not be run.  The fallback is no
/// listing line, so a search over it fails rather than inventing results.
pub fn listing_text(command_output: Option<String>) -> (r: String)
    ensures
        command_output matches Some(s) ==> r == s,
        command_output is None ==> r@ == "ERR"@,
{
    match command_output {
        Some(s) => s,
        None => String::from_str("ERR"),
    }
}

/// Handles one search request: reads the listing and builds the whole
/// response batch.
///
/// The query text plays no part: every clause below speaks of the listing
/// alone, so any two queries over the same listing are owed the same
/// batch.  Success is owed whenever every non-empty listing line is well
/// formed, the batch can be numbered, and every creation time can be
/// rendered; the error otherwise names which of the three failed.  No
/// partial batch is ever produced.
pub fn search_responses(_query: &str, listing: &str) -> (r: Result<Vec<Response>, SearchError>)
    ensures
        r matches Ok(v) ==> wf_listing(listing@) && listing_sessions(listing@).len() <= u32::MAX
            && is_batch_for(v@, listing_sessions(listing@)),
        !wf_listing(listing@) ==> (r matches Err(SearchError::Parse(pe)) && parse_failure_witness(
            listing@,
            pe,
        )),
        r matches Err(SearchError::Parse(pe)) ==> !wf_listing(listing@) && parse_failure_witness(
            listing@,
            pe,
        ),
        r == Err::<Vec<Response>, SearchError>(SearchError::TooManySessions) <==> (wf_listing(
            listing@,
        ) && listing_sessions(listing@).len() > u32::MAX),
        r == Err::<Vec<Response>, SearchError>(SearchError::Time) ==> wf_listing(listing@) && 0
            < listing_sessions(listing@).len() <= u32::MAX,
        wf_listing(listing@) && listing_sessions(listing@).len() == 0 ==> (r matches Ok(v) && v@
            =~= seq![Response::Finished]),
{
    match parse_listing(listing) {
        Err(e) => Err(SearchError::Parse(e)),
        Ok(sessions) => {
            if sessions.len() > (u32::MAX as usize) {
                return Err(SearchError::TooManySessions);
            }
            let mut time_labels: Vec<String> = Vec::new();
            let mut i: usize = 0;
            while i < sessions.len()
                invariant
                    i <= sessions@.len(),
                    time_labels@.len() == i,
                    wf_listing(listing@),
                    views_of(sessions@) == listing_sessions(listing@),
                    sessions@.len() == listing_sessions(listing@).len(),
                    sessions@.len() <= u32::MAX,
                decreases sessions@.len() - i,
            {
                match local_time_label(sessions[i].created_epoch) {
                    Some(label) => time_labels.push(label),
                    None => {
                        return Err(SearchError::Time);
                    },
                }
                i += 1;
            }
            let out = build_responses(&sessions, &time_labels);
            proof {
                let ghost goal = listing_sessions(listing@);
                assert forall|t: int| 0 <= t < goal.len() implies has_append_for(
                    out@,
                    t,
                    goal[t],
                ) by {
                    assert(views_of(sessions@)[t] == sessions@[t]@);
                    assert(is_append_for(out@[t], t, goal[t], time_labels@[t]@));
                }
                assert(is_batch_for(out@, goal));
            }
            Ok(out)
        },
    }
}

} // verus!
