//! Requests that wait for their handlers.

use tokio::sync::oneshot::Sender;
use vstd::prelude::*;
use vstd::string::*;
use vstd::utf8::*;

use crate::tables::IdTable;
use crate::text::{c_text, optional_text_or, put_c_text, read_text};

verus! {

/// The sending half of a one-shot channel of `tokio`. It is opaque here, and only handed on.
#[verifier::external_type_specification]
#[verifier::external_body]
#[verifier::reject_recursive_types(T)]
pub struct ExSender<T>(Sender<T>);

/// The id of the request of that number in a process. The low eight bits of the process id come
/// first, then the low 24 bits of the number.
pub open spec fn request_id(process: u32, number: u32) -> u32 {
    ((process % 0x100) * 0x100_0000 + number % 0x100_0000) as u32
}

/// The upper eight bits of an id are the low ones of the process, and the others those of the
/// number.
pub proof fn lemma_request_id(process: u32, number: u32)
    ensures
        request_id(process, number) as int / 0x100_0000 == process as int % 0x100,
        request_id(process, number) as int % 0x100_0000 == number as int % 0x100_0000,
{
}

/// Two requests of which one has the number `a`, and the other `b`, have different ids where
/// their processes differ in the low eight bits, or else the numbers in the low 24 bits.
pub proof fn lemma_request_ids(process_a: u32, a: u32, process_b: u32, b: u32)
    ensures
        request_id(process_a, a) == request_id(process_b, b) <==> process_a % 0x100 == process_b
            % 0x100 && a % 0x100_0000 == b % 0x100_0000,
{
}

/// Requests of one process that are fewer than 2^24 apart have different ids, whether or not the
/// numbers started over in between.
pub proof fn lemma_near_request_ids(process: u32, number: u32, apart: u32)
    requires
        0 < apart < 0x100_0000,
    ensures
        request_id(process, number) != request_id(process, number.wrapping_add(apart)),
{
    let later = number.wrapping_add(apart);
    assert(later as int == (number + apart) % 0x1_0000_0000);
    assert(later as int % 0x100_0000 == (number + apart) % 0x100_0000);
}

/// The source of the ids of requests.
pub struct RequestIds {
    next: u32,
}

impl RequestIds {
    /// The number of the next request.
    pub closed spec fn spec_next(self) -> u32 {
        self.next
    }

    /// The numbers start at 1.
    pub fn new() -> (r: RequestIds)
        ensures
            r.spec_next() == 1,
    {
        RequestIds { next: 1 }
    }

    /// The id of the next request of a process.
    pub fn issue(&mut self, process: u32) -> (id: u32)
        ensures
            id == request_id(process, old(self).spec_next()),
            final(self).spec_next() == old(self).spec_next().wrapping_add(1),
    {
        let number = self.next;
        self.next = number.wrapping_add(1);
        assert((((process & 0xFF) << 24) | (number & 0x00FFFFFF)) == (process % 0x100) * 0x100_0000
            + number % 0x100_0000) by (bit_vector);
        ((process & 0xFF) << 24) | (number & 0x00FFFFFF)
    }
}

/// A request on its way to its handler.
pub struct PendingRequest {
    pub id: u32,
    pub handler_id: u32,
    pub params_json: String,
    pub dto_data_json: String,
    pub response_tx: Sender<String>,
}

/// A response on its way to the request that waits for it.
pub struct Delivery {
    pub response_tx: Sender<String>,
    pub response: String,
}

/// Where the responses to the requests go that were handed to their handlers, by id.
pub struct PendingResponses {
    table: IdTable<Sender<String>>,
}

impl View for PendingResponses {
    type V = Map<u32, Sender<String>>;

    closed spec fn view(&self) -> Map<u32, Sender<String>> {
        self.table.map()
    }
}

impl PendingResponses {
    /// The table is well formed.
    pub closed spec fn wf(self) -> bool {
        self.table.wf()
    }

    /// No request waits.
    pub fn new() -> (r: PendingResponses)
        ensures
            r.wf(),
            r@ == Map::<u32, Sender<String>>::empty(),
    {
        PendingResponses { table: IdTable::new() }
    }
}

/// Where responses go once the next request, if there is one, was handed to its handler.
pub open spec fn after_poll(
    pending: Map<u32, Sender<String>>,
    request: Option<PendingRequest>,
) -> Map<u32, Sender<String>> {
    match request {
        Some(request) => pending.insert(request.id, request.response_tx),
        None => pending,
    }
}

/// Where the response to the request of that id goes; `None` where there is no response or no
/// such request waits.
pub open spec fn response_goes_to(
    pending: Map<u32, Sender<String>>,
    id: u32,
    response_json: Option<&[u8]>,
) -> Option<Sender<String>> {
    if response_json is Some && pending.contains_key(id) {
        Some(pending[id])
    } else {
        None
    }
}

/// Where responses go once there was a response to the request of that id, or none.
pub open spec fn after_respond(
    pending: Map<u32, Sender<String>>,
    id: u32,
    response_json: Option<&[u8]>,
) -> Map<u32, Sender<String>> {
    match response_goes_to(pending, id, response_json) {
        Some(_) => pending.remove(id),
        None => pending,
    }
}

/// A response goes to the request of its id, where one waits, which then waits no more, and a
/// missing response goes nowhere. A request that was handed over waits, and all others wait as
/// before.
pub proof fn lemma_waiting(
    pending: Map<u32, Sender<String>>,
    id: u32,
    response_json: Option<&[u8]>,
    request: PendingRequest,
)
    ensures
        response_json is Some && pending.contains_key(id) ==> response_goes_to(
            pending,
            id,
            response_json,
        ) == Some(pending[id]) && after_respond(pending, id, response_json) == pending.remove(id),
        response_json is None || !pending.contains_key(id) ==> response_goes_to(
            pending,
            id,
            response_json,
        ) is None && after_respond(pending, id, response_json) == pending,
        after_poll(pending, Some(request)) == pending.insert(request.id, request.response_tx),
        after_poll(pending, None) == pending,
{
}

/// The response to a request that was handed over goes to that request, and only the first: a
/// second response to it goes nowhere. Other requests are not concerned.
pub proof fn lemma_respond_once(
    pending: Map<u32, Sender<String>>,
    request: PendingRequest,
    first: &[u8],
    second: Option<&[u8]>,
    other: u32,
    third: Option<&[u8]>,
)
    ensures
        ({
            let polled = after_poll(pending, Some(request));
            let responded = after_respond(polled, request.id, Some(first));
            &&& response_goes_to(polled, request.id, Some(first)) == Some(request.response_tx)
            &&& response_goes_to(responded, request.id, second) is None
            &&& other != request.id ==> response_goes_to(responded, other, third)
                == response_goes_to(pending, other, third)
        }),
{
}

/// A response to a request that is waiting still goes to it after any other request was handed
/// over or answered.
pub proof fn lemma_waits(
    pending: Map<u32, Sender<String>>,
    id: u32,
    bytes: &[u8],
    request: PendingRequest,
    other: u32,
    response: Option<&[u8]>,
)
    requires
        request.id != id,
        other != id,
    ensures
        response_goes_to(after_poll(pending, Some(request)), id, Some(bytes)) == response_goes_to(
            pending,
            id,
            Some(bytes),
        ),
        response_goes_to(after_respond(pending, other, response), id, Some(bytes))
            == response_goes_to(pending, id, Some(bytes)),
{
}

/// Hands the next request to its handler, if there is one: gives its id, its handler, its
/// parameters and its data, and keeps where the response goes. Returns 1 where a request was
/// handed over, else 0.
pub fn quill_server_poll(
    pending: &mut PendingResponses,
    request: Option<PendingRequest>,
    out_id: &mut u32,
    out_handler_id: &mut u32,
    out_params_json: &mut [u8],
    out_dto_json: &mut [u8],
) -> (r: i32)
    requires
        old(pending).wf(),
    ensures
        final(pending).wf(),
        final(pending)@ == after_poll(old(pending)@, request),
        (match request {
            Some(request) => {
                &&& r == 1
                &&& *final(out_id) == request.id
                &&& *final(out_handler_id) == request.handler_id
                &&& final(out_params_json)@ == c_text(
                    encode_utf8(request.params_json@),
                    old(out_params_json)@,
                )
                &&& final(out_dto_json)@ == c_text(
                    encode_utf8(request.dto_data_json@),
                    old(out_dto_json)@,
                )
            },
            None => {
                &&& r == 0
                &&& *final(out_id) == *old(out_id)
                &&& *final(out_handler_id) == *old(out_handler_id)
                &&& final(out_params_json)@ == old(out_params_json)@
                &&& final(out_dto_json)@ == old(out_dto_json)@
            },
        }),
{
    match request {
        Some(request) => {
            *out_id = request.id;
            *out_handler_id = request.handler_id;
            put_c_text(request.params_json.as_str(), out_params_json);
            put_c_text(request.dto_data_json.as_str(), out_dto_json);
            pending.table.set(request.id, request.response_tx);
            1
        },
        None => 0,
    }
}

/// Takes the response to a request: gives what is to be delivered, and where, in `delivery`. A
/// response that is not UTF-8 counts as an empty object. Returns 0, or 1 where there is no
/// response or no request of that id waits.
pub fn quill_server_respond(
    pending: &mut PendingResponses,
    id: u32,
    response_json: Option<&[u8]>,
    delivery: &mut Option<Delivery>,
) -> (r: i32)
    requires
        old(pending).wf(),
    ensures
        final(pending).wf(),
        final(pending)@ == after_respond(old(pending)@, id, response_json),
        (match response_goes_to(old(pending)@, id, response_json) {
            Some(tx) => r == 0 && (*final(delivery) matches Some(out) && out.response_tx == tx
                && out.response@ == optional_text_or(response_json, "{}"@)),
            None => r == 1 && *final(delivery) == *old(delivery),
        }),
{
    let bytes = match response_json {
        Some(bytes) => bytes,
        None => {
            return 1;
        },
    };
    match pending.table.remove(id) {
        Some(response_tx) => {
            let response = read_text(bytes, "{}").to_owned();
            *delivery = Some(Delivery { response_tx, response });
            0
        },
        None => {
            assert(pending@ =~= old(pending)@);
            1
        },
    }
}

/// What stops a server that is running.
pub struct DrainGate {
    signal: Option<Sender<()>>,
}

impl View for DrainGate {
    type V = Option<Sender<()>>;

    closed spec fn view(&self) -> Option<Sender<()>> {
        self.signal
    }
}

impl DrainGate {
    /// No server is running.
    pub fn new() -> (r: DrainGate)
        ensures
            r@ is None,
    {
        DrainGate { signal: None }
    }

    /// Takes the signal of a server that starts, in place of an earlier one.
    pub fn arm(&mut self, signal: Sender<()>)
        ensures
            final(self)@ == Some(signal),
    {
        self.signal = Some(signal);
    }
}

/// Takes the signal of the server that is running, to be sent. Returns 0, or 1 where no server
/// is running.
pub fn quill_server_drain(gate: &mut DrainGate, signal: &mut Option<Sender<()>>) -> (r: i32)
    ensures
        final(gate)@ is None,
        (match old(gate)@ {
            Some(tx) => r == 0 && *final(signal) == Some(tx),
            None => r == 1 && *final(signal) == *old(signal),
        }),
{
    match gate.signal.take() {
        Some(tx) => {
            *signal = Some(tx);
            0
        },
        None => 1,
    }
}

} // verus!
