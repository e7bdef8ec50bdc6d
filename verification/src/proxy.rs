//! The decisions of the HTTP front end: which operation a request asks for,
//! and what is answered once the operation has its result.
//!
//! The front end itself (sockets, HTTP, the clock) is not here. It hands
//! this module the method, the path and the size of the body of a request,
//! performs the operation it is told to, and sends the response it is given.

use crate::consensus::{timing_views, RequestResult, TimingEntry};
use crate::error::{VdrError, VdrErrorKind, VdrResult};
use crate::pool::Target;
use crate::text::{decimal, push_decimal};
use vstd::prelude::*;
use vstd::string::*;

verus! {

/// The number of the domain ledger.
pub const DOMAIN_LEDGER: i32 = 1;

/// The method of an HTTP request, as far as the routes tell methods apart.
#[derive(Clone, Copy, Debug, PartialEq, Eq, Structural)]
pub enum Method {
    Get,
    Post,
    Other,
}

/// An operation on the pool that the front end offers.
#[derive(Clone, Copy, Debug, PartialEq, Eq, Structural)]
pub enum Operation {
    /// Fetch one transaction by its sequence number.
    GetTxn { ledger: i32, seq_no: i32 },
    /// Fetch one transaction with its inclusion proof, from every node.
    GetTxnFull { ledger: i32, seq_no: i32 },
    /// Fetch the status of every validator node.
    ValidatorInfo,
    /// Fetch the genesis log. It is answered from the pool's own store.
    Genesis,
    /// Fetch the text of the transaction author agreement.
    Taa,
    /// Fetch the list of acceptance mechanisms.
    Aml,
    /// Submit the request in the body.
    Submit,
}

/// What the front end does with a request.
#[derive(Clone, Copy, Debug, PartialEq, Eq, Structural)]
pub enum Step {
    /// Perform the operation, then answer with its result.
    Perform(Operation),
    /// Answer at once with the given status and an empty body.
    Reject(u16),
}

/// The step for a request, by method and path.
///
/// - `GET /`, `/status`, `/full`, `/genesis`, `/taa`, `/aml`: the operation.
/// - `POST /submit`: the submission, or 400 where the body is empty.
/// - `GET /submit`: 405. Any other `GET`: 404. Anything else: 405.
pub open spec fn route(method: Method, path: Seq<char>, body_len: nat, seq_no: i32) -> Step {
    match method {
        Method::Get => {
            if path == "/"@ {
                Step::Perform(Operation::GetTxn { ledger: DOMAIN_LEDGER, seq_no })
            } else if path == "/status"@ {
                Step::Perform(Operation::ValidatorInfo)
            } else if path == "/submit"@ {
                Step::Reject(405)
            } else if path == "/full"@ {
                Step::Perform(Operation::GetTxnFull { ledger: DOMAIN_LEDGER, seq_no })
            } else if path == "/genesis"@ {
                Step::Perform(Operation::Genesis)
            } else if path == "/taa"@ {
                Step::Perform(Operation::Taa)
            } else if path == "/aml"@ {
                Step::Perform(Operation::Aml)
            } else {
                Step::Reject(404)
            }
        },
        Method::Post => {
            if path == "/submit"@ {
                if body_len > 0 {
                    Step::Perform(Operation::Submit)
                } else {
                    Step::Reject(400)
                }
            } else {
                Step::Reject(405)
            }
        },
        Method::Other => Step::Reject(405),
    }
}

/// Whether two texts are the same.
fn same_text(a: &str, b: &str) -> (same: bool)
    ensures
        same == (a@ == b@),
{
    let x = a.to_owned();
    let y = b.to_owned();
    x == y
}

/// Decides what to do with a request: see `route`.
pub fn handle_request(method: Method, path: &str, body_len: usize, seq_no: i32) -> (step: Step)
    ensures
        step == route(method, path@, body_len as nat, seq_no),
{
    match method {
        Method::Get => {
            if same_text(path, "/") {
                Step::Perform(Operation::GetTxn { ledger: DOMAIN_LEDGER, seq_no })
            } else if same_text(path, "/status") {
                Step::Perform(Operation::ValidatorInfo)
            } else if same_text(path, "/submit") {
                Step::Reject(405)
            } else if same_text(path, "/full") {
                Step::Perform(Operation::GetTxnFull { ledger: DOMAIN_LEDGER, seq_no })
            } else if same_text(path, "/genesis") {
                Step::Perform(Operation::Genesis)
            } else if same_text(path, "/taa") {
                Step::Perform(Operation::Taa)
            } else if same_text(path, "/aml") {
                Step::Perform(Operation::Aml)
            } else {
                Step::Reject(404)
            }
        },
        Method::Post => {
            if same_text(path, "/submit") {
                if body_len > 0 {
                    Step::Perform(Operation::Submit)
                } else {
                    Step::Reject(400)
                }
            } else {
                Step::Reject(405)
            }
        },
        Method::Other => Step::Reject(405),
    }
}

/// Which nodes an operation asks, or `None` where it asks none.
pub open spec fn spec_target_of(operation: Operation) -> Option<Target> {
    match operation {
        Operation::Genesis => None,
        Operation::GetTxnFull { .. } => Some(Target::All),
        Operation::ValidatorInfo => Some(Target::All),
        _ => Some(Target::Adaptive),
    }
}

/// Which nodes an operation asks. The genesis log asks none: it is read
/// from the pool's own store.
#[verifier::when_used_as_spec(spec_target_of)]
pub fn target_of(operation: Operation) -> (target: Option<Target>)
    ensures
        target == spec_target_of(operation),
{
    match operation {
        Operation::Genesis => None,
        Operation::GetTxnFull { .. } => Some(Target::All),
        Operation::ValidatorInfo => Some(Target::All),
        _ => Some(Target::Adaptive),
    }
}

/// The genesis log is the one operation that asks no node.
pub proof fn lemma_only_genesis_is_local(operation: Operation)
    ensures
        spec_target_of(operation) is None <==> operation is Genesis,
{
}

/// The HTTP status that stands for a class of failure.
pub open spec fn spec_status_of(kind: VdrErrorKind) -> u16 {
    match kind {
        VdrErrorKind::Request => 400,
        VdrErrorKind::NoConsensus => 409,
        VdrErrorKind::Config => 500,
        VdrErrorKind::Connection => 502,
        VdrErrorKind::Cancelled => 503,
        VdrErrorKind::Timeout => 504,
    }
}

/// The HTTP status that stands for a class of failure. Each class has its
/// own.
#[verifier::when_used_as_spec(spec_status_of)]
pub fn status_of(kind: VdrErrorKind) -> (status: u16)
    ensures
        status == spec_status_of(kind),
{
    match kind {
        VdrErrorKind::Request => 400,
        VdrErrorKind::NoConsensus => 409,
        VdrErrorKind::Config => 500,
        VdrErrorKind::Connection => 502,
        VdrErrorKind::Cancelled => 503,
        VdrErrorKind::Timeout => 504,
    }
}

/// Different classes of failure have different statuses, and none has the
/// status of success.
pub proof fn lemma_status_tells_failures_apart(a: VdrErrorKind, b: VdrErrorKind)
    ensures
        spec_status_of(a) == spec_status_of(b) ==> a == b,
        spec_status_of(a) != 200,
{
}

/// The result of a request for the caller: the agreed value with the
/// timing, or the failure.
pub fn format_request_result<T>(outcome: (RequestResult<T>, Vec<TimingEntry>)) -> (r: VdrResult<
    (T, Vec<TimingEntry>),
>)
    ensures
        outcome.0 matches RequestResult::Reply(message) ==> r == Ok::<
            (T, Vec<TimingEntry>),
            VdrError,
        >((message, outcome.1)),
        outcome.0 matches RequestResult::Failed(e) ==> r == Err::<
            (T, Vec<TimingEntry>),
            VdrError,
        >(e),
{
    let (result, timing) = outcome;
    match result {
        RequestResult::Reply(message) => Ok((message, timing)),
        RequestResult::Failed(e) => Err(e),
    }
}

/// The text of one entry of a timing report: the node, a colon, and the
/// latency or `None`.
pub open spec fn entry_text(entry: (usize, Option<u64>)) -> Seq<char> {
    decimal(entry.0 as nat) + ": "@ + match entry.1 {
        Some(latency) => decimal(latency as nat),
        None => "None"@,
    }
}

/// The texts of the entries of a timing report, separated by commas.
pub open spec fn entries_text(timing: Seq<(usize, Option<u64>)>) -> Seq<char>
    decreases timing.len(),
{
    if timing.len() == 0 {
        Seq::empty()
    } else if timing.len() == 1 {
        entry_text(timing[0])
    } else {
        entries_text(timing.drop_last()) + ", "@ + entry_text(timing.last())
    }
}

/// The text of a timing report: its entries in braces.
pub open spec fn timing_text(timing: Seq<(usize, Option<u64>)>) -> Seq<char> {
    "{"@ + entries_text(timing) + "}"@
}

/// Renders a timing report: `{0: 12, 1: None}`.
pub fn format_timing(timing: &Vec<TimingEntry>) -> (out: String)
    ensures
        out@ == timing_text(timing_views(timing@)),
{
    let ghost views = timing_views(timing@);
    let mut out = "{".to_owned();
    let mut i: usize = 0;
    while i < timing.len()
        invariant
            i <= timing.len(),
            views == timing_views(timing@),
            out@ == "{"@ + entries_text(views.take(i as int)),
        decreases timing.len() - i,
    {
        let ghost before = out@;
        let ghost done = entries_text(views.take(i as int));
        if i > 0 {
            out.append(", ");
        }
        let ghost sep = if i > 0 {
            ", "@
        } else {
            Seq::<char>::empty()
        };
        push_decimal(&mut out, timing[i].node as u64);
        out.append(": ");
        match timing[i].latency {
            Some(latency) => push_decimal(&mut out, latency),
            None => out.append("None"),
        }
        proof {
            let entry = views[i as int];
            assert(entry == (timing[i as int].node, timing[i as int].latency));
            assert(views.take(i + 1).drop_last() == views.take(i as int));
            assert(views.take(i + 1).last() == entry);
            assert(out@ =~= before + sep + entry_text(entry));
            assert(entries_text(views.take(i + 1)) =~= done + sep + entry_text(entry));
            assert(out@ =~= "{"@ + entries_text(views.take(i + 1)));
        }
        i = i + 1;
    }
    assert(views.take(i as int) == views);
    out.append("}");
    out
}

/// The text of a reply with its timing: the agreed value, an empty line
/// and the timing report.
pub open spec fn reply_text(message: Seq<char>, timing: Seq<(usize, Option<u64>)>) -> Seq<char> {
    message + "\n\n"@ + timing_text(timing)
}

/// The text of a result for the caller: the reply with its timing report
/// below it. A failure is handed on as it is.
pub fn format_result(result: VdrResult<(String, Vec<TimingEntry>)>) -> (out: VdrResult<String>)
    ensures
        result matches Ok((message, timing)) ==> out matches Ok(text) && text@ == reply_text(
            message@,
            timing_views(timing@),
        ),
        result matches Err(e) ==> out == Err::<String, VdrError>(e),
{
    match result {
        Ok((message, timing)) => {
            let mut text = message;
            text.append("\n\n");
            let report = format_timing(&timing);
            text.append(report.as_str());
            Ok(text)
        },
        Err(e) => Err(e),
    }
}

/// What is answered to a request.
#[derive(Debug, PartialEq, Eq)]
pub struct Response {
    /// The HTTP status.
    pub status: u16,
    /// The body.
    pub body: String,
    /// The value of the `X-Timing` header, where there is one.
    pub timing: Option<String>,
}

/// A `Response` with its texts as sequences of characters.
pub struct ResponseView {
    pub status: u16,
    pub body: Seq<char>,
    pub timing: Option<Seq<char>>,
}

impl View for Response {
    type V = ResponseView;

    open spec fn view(&self) -> ResponseView {
        ResponseView {
            status: self.status,
            body: self.body@,
            timing: match self.timing {
                Some(t) => Some(t@),
                None => None,
            },
        }
    }
}

/// The response to an operation that has its result.
///
/// - The genesis log: 200, and the log alone as the body.
/// - A submission that succeeded: 200, the agreed value as the body, and the
///   timing report in the `X-Timing` header.
/// - Any other success: 200, and the value with the timing report below it.
/// - A failure: the status of its class, and its text.
pub open spec fn response_for(
    operation: Operation,
    result: VdrResult<(String, Vec<TimingEntry>)>,
) -> ResponseView {
    match result {
        Ok((message, timing)) => match operation {
            Operation::Genesis => ResponseView { status: 200, body: message@, timing: None },
            Operation::Submit => ResponseView {
                status: 200,
                body: message@,
                timing: Some(timing_text(timing_views(timing@))),
            },
            _ => ResponseView {
                status: 200,
                body: reply_text(message@, timing_views(timing@)),
                timing: None,
            },
        },
        Err(e) => ResponseView {
            status: spec_status_of(e.spec_kind()),
            body: e.spec_message(),
            timing: None,
        },
    }
}

/// Builds the response to an operation that has its result: see
/// `response_for`.
pub fn respond(operation: Operation, result: VdrResult<(String, Vec<TimingEntry>)>) -> (out:
    Response)
    ensures
        out@ == response_for(operation, result),
{
    match operation {
        Operation::Genesis => match result {
            Ok((message, _)) => Response { status: 200, body: message, timing: None },
            Err(e) => fail(e),
        },
        Operation::Submit => match result {
            Ok((message, timing)) => Response {
                status: 200,
                body: message,
                timing: Some(format_timing(&timing)),
            },
            Err(e) => fail(e),
        },
        _ => match format_result(result) {
            Ok(text) => Response { status: 200, body: text, timing: None },
            Err(e) => fail(e),
        },
    }
}

/// The response to a failure: the status of its class, and its text.
pub fn fail(error: VdrError) -> (out: Response)
    ensures
        out@ == (ResponseView {
            status: spec_status_of(error.spec_kind()),
            body: error.spec_message(),
            timing: None,
        }),
{
    Response { status: status_of(error.kind()), body: error.message(), timing: None }
}

/// The response to a request that is answered at once: the status and an
/// empty body.
pub fn reject(status: u16) -> (out: Response)
    ensures
        out@ == (ResponseView { status, body: Seq::empty(), timing: None }),
{
    Response { status, body: String::new(), timing: None }
}

/// Numbers the requests of one session: 1, 2, 3, and so on. After the
/// largest number it starts again at 1.
#[derive(Debug)]
pub struct RequestCounter {
    next: i32,
}

impl View for RequestCounter {
    type V = int;

    /// The number that the next request gets.
    closed spec fn view(&self) -> int {
        self.next as int
    }
}

impl RequestCounter {
    /// A counter whose first number is 1.
    pub fn new() -> (counter: RequestCounter)
        ensures
            counter@ == 1,
    {
        RequestCounter { next: 1 }
    }

    /// The number for the next request.
    pub fn take(&mut self) -> (seq_no: i32)
        ensures
            seq_no == old(self)@,
            final(self)@ == (if old(self)@ == i32::MAX {
                1
            } else {
                old(self)@ + 1
            }),
    {
        let seq_no = self.next;
        self.next = if seq_no == i32::MAX {
            1
        } else {
            seq_no + 1
        };
        seq_no
    }
}

} // verus!
