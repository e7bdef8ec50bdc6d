use indy_vdr::consensus::{RequestResult, TimingEntry};
use indy_vdr::error::{RequestFault, VdrError, VdrErrorKind};
use indy_vdr::pool::Target;
use indy_vdr::proxy::{
    fail, format_request_result, format_result, format_timing, handle_request, reject, respond,
    status_of, target_of, Method, Operation, RequestCounter, Response, Step, DOMAIN_LEDGER,
};
use indy_vdr::text::to_decimal;

fn timing() -> Vec<TimingEntry> {
    vec![
        TimingEntry { node: 0, latency: Some(12) },
        TimingEntry { node: 1, latency: None },
        TimingEntry { node: 10, latency: Some(0) },
    ]
}

#[test]
fn routes_of_get() {
    assert_eq!(
        handle_request(Method::Get, "/", 0, 5),
        Step::Perform(Operation::GetTxn { ledger: DOMAIN_LEDGER, seq_no: 5 })
    );
    assert_eq!(
        handle_request(Method::Get, "/status", 0, 5),
        Step::Perform(Operation::ValidatorInfo)
    );
    assert_eq!(handle_request(Method::Get, "/submit", 0, 5), Step::Reject(405));
    assert_eq!(
        handle_request(Method::Get, "/full", 0, 6),
        Step::Perform(Operation::GetTxnFull { ledger: 1, seq_no: 6 })
    );
    assert_eq!(
        handle_request(Method::Get, "/genesis", 0, 5),
        Step::Perform(Operation::Genesis)
    );
    assert_eq!(
        handle_request(Method::Get, "/taa", 0, 5),
        Step::Perform(Operation::Taa)
    );
    assert_eq!(
        handle_request(Method::Get, "/aml", 0, 5),
        Step::Perform(Operation::Aml)
    );
    assert_eq!(handle_request(Method::Get, "/other", 0, 5), Step::Reject(404));
    assert_eq!(handle_request(Method::Get, "", 0, 5), Step::Reject(404));
    assert_eq!(handle_request(Method::Get, "/status/", 0, 5), Step::Reject(404));
}

#[test]
fn routes_of_post_and_other_methods() {
    assert_eq!(
        handle_request(Method::Post, "/submit", 10, 1),
        Step::Perform(Operation::Submit)
    );
    assert_eq!(handle_request(Method::Post, "/submit", 0, 1), Step::Reject(400));
    assert_eq!(handle_request(Method::Post, "/", 3, 1), Step::Reject(405));
    assert_eq!(handle_request(Method::Post, "/genesis", 3, 1), Step::Reject(405));
    assert_eq!(handle_request(Method::Other, "/", 0, 1), Step::Reject(405));
    assert_eq!(handle_request(Method::Other, "/submit", 4, 1), Step::Reject(405));
}

#[test]
fn genesis_asks_no_node() {
    assert_eq!(target_of(Operation::Genesis), None);
    assert_eq!(target_of(Operation::ValidatorInfo), Some(Target::All));
    assert_eq!(
        target_of(Operation::GetTxnFull { ledger: 1, seq_no: 1 }),
        Some(Target::All)
    );
    assert_eq!(
        target_of(Operation::GetTxn { ledger: 1, seq_no: 1 }),
        Some(Target::Adaptive)
    );
    assert_eq!(target_of(Operation::Taa), Some(Target::Adaptive));
    assert_eq!(target_of(Operation::Aml), Some(Target::Adaptive));
    assert_eq!(target_of(Operation::Submit), Some(Target::Adaptive));
}

#[test]
fn every_failure_kind_has_its_own_status() {
    let kinds = [
        VdrErrorKind::Config,
        VdrErrorKind::Connection,
        VdrErrorKind::Timeout,
        VdrErrorKind::NoConsensus,
        VdrErrorKind::Request,
        VdrErrorKind::Cancelled,
    ];
    let statuses: Vec<u16> = kinds.iter().map(|k| status_of(*k)).collect();
    assert_eq!(statuses, vec![500, 502, 504, 409, 400, 503]);
}

#[test]
fn timing_report_text() {
    assert_eq!(format_timing(&timing()), "{0: 12, 1: None, 10: 0}");
    assert_eq!(format_timing(&Vec::new()), "{}");
    assert_eq!(
        format_timing(&vec![TimingEntry { node: 3, latency: Some(u64::MAX) }]),
        "{3: 18446744073709551615}"
    );
}

#[test]
fn request_result_for_the_caller() {
    assert_eq!(
        format_request_result((RequestResult::Reply("m".to_string()), timing())),
        Ok(("m".to_string(), timing()))
    );
    assert_eq!(
        format_request_result((RequestResult::<String>::Failed(VdrError::NoConsensus), timing())),
        Err(VdrError::NoConsensus)
    );
    assert_eq!(
        format_request_result((RequestResult::Reply(7u8), Vec::new())),
        Ok((7u8, Vec::new()))
    );
}

#[test]
fn result_text_for_success_and_failure() {
    assert_eq!(
        format_result(Ok(("reply".to_string(), timing()))),
        Ok("reply\n\n{0: 12, 1: None, 10: 0}".to_string())
    );
    assert_eq!(
        format_result(Ok(("reply".to_string(), Vec::new()))),
        Ok("reply\n\n{}".to_string())
    );
    assert_eq!(
        format_result(Err(VdrError::NoConsensus)),
        Err(VdrError::NoConsensus)
    );
    assert_eq!(
        format_result(Err(VdrError::Request(RequestFault::UnknownNode))),
        Err(VdrError::Request(RequestFault::UnknownNode))
    );
}

#[test]
fn genesis_is_answered_with_the_log_alone() {
    let log = "Node1 a k1\nNode2 b k2".to_string();
    assert_eq!(
        respond(Operation::Genesis, Ok((log.clone(), Vec::new()))),
        Response { status: 200, body: log.clone(), timing: None }
    );
    assert_eq!(
        respond(Operation::Genesis, Ok((log.clone(), timing()))),
        Response { status: 200, body: log, timing: None }
    );
}

#[test]
fn failure_response() {
    assert_eq!(
        fail(VdrError::Timeout),
        Response { status: 504, body: "Request timed out".to_string(), timing: None }
    );
    assert_eq!(
        fail(VdrError::Connection),
        Response {
            status: 502,
            body: "Connection to the node failed".to_string(),
            timing: None
        }
    );
}

#[test]
fn responses() {
    assert_eq!(
        respond(Operation::Taa, Ok(("text".to_string(), timing()))),
        Response {
            status: 200,
            body: "text\n\n{0: 12, 1: None, 10: 0}".to_string(),
            timing: None
        }
    );
    assert_eq!(
        respond(Operation::Submit, Ok(("ack".to_string(), timing()))),
        Response {
            status: 200,
            body: "ack".to_string(),
            timing: Some("{0: 12, 1: None, 10: 0}".to_string())
        }
    );
    assert_eq!(
        respond(Operation::Submit, Err(VdrError::Request(RequestFault::EmptyRequest))),
        Response {
            status: 400,
            body: "Empty request".to_string(),
            timing: None
        }
    );
    assert_eq!(
        respond(Operation::ValidatorInfo, Err(VdrError::NoConsensus)),
        Response {
            status: 409,
            body: "No consensus among the nodes".to_string(),
            timing: None
        }
    );
    assert_eq!(
        respond(Operation::Genesis, Err(VdrError::Cancelled)).status,
        503
    );
    assert_eq!(
        reject(404),
        Response { status: 404, body: String::new(), timing: None }
    );
}

#[test]
fn counter_starts_at_one_and_counts_up() {
    let mut counter = RequestCounter::new();
    assert_eq!(counter.take(), 1);
    assert_eq!(counter.take(), 2);
    assert_eq!(counter.take(), 3);
}

#[test]
fn decimal_numerals() {
    assert_eq!(to_decimal(0), "0");
    assert_eq!(to_decimal(7), "7");
    assert_eq!(to_decimal(10), "10");
    assert_eq!(to_decimal(1234567890), "1234567890");
    assert_eq!(to_decimal(u64::MAX), "18446744073709551615");
}
