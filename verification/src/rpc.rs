//! Requests from the host to guest functions, and their responses.
use vstd::bytes::spec_u64_to_le_bytes;
use vstd::prelude::*;

verus! {

/// There is no guest function with the id.
pub const STATUS_FN_NOT_FOUND: u32 = 1;

/// The request could not be read.
pub const STATUS_BAD_REQUEST: u32 = 2;

/// What is asked: of which function, and with what.
#[derive(Debug)]
pub struct Request {
    pub fn_id: u32,
    pub payload: Vec<u8>,
}

/// What is answered. A status of zero is success.
#[derive(Debug)]
pub struct Response {
    pub status: u32,
    pub payload: Vec<u8>,
    pub error_msg: Option<String>,
}

impl Response {
    /// Success.
    pub fn ok(payload: Vec<u8>) -> (response: Response)
        ensures
            response.status == 0,
            response.payload@ == payload@,
            response.error_msg is None,
    {
        Response { status: 0, payload, error_msg: None }
    }

    /// Failure.
    pub fn err(status: u32, message: String) -> (response: Response)
        ensures
            response.status == status,
            response.payload@ == Seq::<u8>::empty(),
            response.error_msg matches Some(m) && m@ == message@,
    {
        Response { status, payload: Vec::new(), error_msg: Some(message) }
    }
}

/// The place of the first function with an id.
pub open spec fn function_at(ids: Seq<u32>, fn_id: u32) -> Option<int>
    decreases ids.len(),
{
    if ids.len() == 0 {
        None
    } else if ids[0] == fn_id {
        Some(0)
    } else {
        match function_at(ids.drop_first(), fn_id) {
            Some(i) => Some(i + 1),
            None => None,
        }
    }
}

/// The place of the function with an id in the table of functions.
pub fn lookup(ids: &Vec<u32>, fn_id: u32) -> (found: Option<usize>)
    ensures
        match found {
            Some(i) => function_at(ids@, fn_id) == Some(i as int) && i < ids@.len() && ids@[i as int]
                == fn_id,
            None => function_at(ids@, fn_id) is None && !ids@.contains(fn_id),
        },
{
    let mut i: usize = 0;
    assert(ids@.skip(0) =~= ids@);
    while i < ids.len()
        invariant
            i <= ids@.len(),
            forall|j: int| 0 <= j < i ==> ids@[j] != fn_id,
            function_at(ids@, fn_id) == match function_at(ids@.skip(i as int), fn_id) {
                Some(k) => Some(k + i),
                None => None,
            },
        decreases ids@.len() - i,
    {
        assert(ids@.skip(i as int).drop_first() =~= ids@.skip(i + 1));
        if ids[i] == fn_id {
            return Some(i);
        }
        i = i + 1;
    }
    None
}

/// What a request comes to: a function to call, or a response.
#[derive(Debug)]
pub enum Dispatch {
    Call { index: usize, payload: Vec<u8> },
    Respond(Response),
}

/// Decide about a request that was read, or could not be read.
pub fn dispatch_request(ids: &Vec<u32>, request: Result<Request, String>) -> (dispatch: Dispatch)
    ensures
        match request {
            Ok(r) => match function_at(ids@, r.fn_id) {
                Some(i) => {
                    &&& dispatch matches Dispatch::Call { index, payload }
                    &&& index == i
                    &&& payload@ == r.payload@
                },
                None => {
                    &&& dispatch matches Dispatch::Respond(resp)
                    &&& resp.status == STATUS_FN_NOT_FOUND
                    &&& resp.payload@ == Seq::<u8>::empty()
                    &&& resp.error_msg matches Some(m)
                    &&& m@ == "fn_id not registered"@
                },
            },
            Err(e) => {
                &&& dispatch matches Dispatch::Respond(resp)
                &&& resp.status == STATUS_BAD_REQUEST
                &&& resp.payload@ == Seq::<u8>::empty()
                &&& resp.error_msg matches Some(m)
                &&& m@ == "rkyv access Request: "@ + e@
            },
        },
{
    match request {
        Ok(r) => match lookup(ids, r.fn_id) {
            Some(index) => Dispatch::Call { index, payload: r.payload },
            None => Dispatch::Respond(
                Response::err(STATUS_FN_NOT_FOUND, "fn_id not registered".to_string()),
            ),
        },
        Err(e) => {
            let mut message: String = "rkyv access Request: ".to_string();
            message.append(e.as_str());
            Dispatch::Respond(Response::err(STATUS_BAD_REQUEST, message))
        },
    }
}

/// How a call of the host failed.
#[derive(Debug)]
pub struct HostCallError {
    pub fn_id: u32,
    pub status: u32,
    pub error_msg: Option<String>,
}

/// A number in decimal digits.
pub open spec fn decimal_text(n: nat) -> Seq<char>
    decreases n,
{
    if n < 10 {
        seq![digit_char(n)]
    } else {
        decimal_text(n / 10).push(digit_char(n % 10))
    }
}

/// A digit.
pub open spec fn digit_char(d: nat) -> char {
    (('0' as u32) + d) as char
}

fn digit(d: u32) -> (text: &'static str)
    requires
        d < 10,
    ensures
        text@ == seq![digit_char(d as nat)],
{
    proof {
        reveal_strlit("0");
        reveal_strlit("1");
        reveal_strlit("2");
        reveal_strlit("3");
        reveal_strlit("4");
        reveal_strlit("5");
        reveal_strlit("6");
        reveal_strlit("7");
        reveal_strlit("8");
        reveal_strlit("9");
    }
    let text = match d {
        0 => "0",
        1 => "1",
        2 => "2",
        3 => "3",
        4 => "4",
        5 => "5",
        6 => "6",
        7 => "7",
        8 => "8",
        _ => "9",
    };
    assert(text@ =~= seq![digit_char(d as nat)]);
    text
}

fn decimal(n: u32) -> (text: String)
    ensures
        text@ == decimal_text(n as nat),
    decreases n,
{
    if n < 10 {
        digit(n).to_string()
    } else {
        let mut text = decimal(n / 10);
        text.append(digit(n % 10));
        assert(text@ =~= decimal_text(n as nat));
        text
    }
}

impl HostCallError {
    pub open spec fn text(&self) -> Seq<char> {
        let plain = "host call fn_id="@ + decimal_text(self.fn_id as nat) + " failed (status="@
            + decimal_text(self.status as nat) + ")"@;
        match self.error_msg {
            Some(m) => plain + ": "@ + m@,
            None => plain,
        }
    }

    /// The message.
    pub fn message(&self) -> (message: String)
        ensures
            message@ == self.text(),
    {
        let mut message: String = "host call fn_id=".to_string();
        message.append(decimal(self.fn_id).as_str());
        message.append(" failed (status=");
        message.append(decimal(self.status).as_str());
        message.append(")");
        if let Some(m) = &self.error_msg {
            message.append(": ");
            message.append(m.as_str());
        }
        message
    }
}

/// What a response of the host to a call comes to: its payload, or the failure.
pub fn host_result(fn_id: u32, response: Response) -> (payload: Result<Vec<u8>, HostCallError>)
    ensures
        match payload {
            Ok(p) => response.status == 0 && p@ == response.payload@,
            Err(e) => {
                &&& response.status != 0
                &&& e.fn_id == fn_id
                &&& e.status == response.status
                &&& e.error_msg == response.error_msg
            },
        },
{
    if response.status != 0 {
        Err(HostCallError { fn_id, status: response.status, error_msg: response.error_msg })
    } else {
        Ok(response.payload)
    }
}

/// Calls `rkyv::to_bytes` on a number. An archived number is its eight bytes, the
/// lowest first, and nothing else.
#[verifier::external_body]
fn archived_number(value: u64) -> (bytes: Vec<u8>)
    ensures
        bytes@ == spec_u64_to_le_bytes(value),
{
    rkyv::to_bytes::<rkyv::rancor::Error>(&value).expect("a number is archived").into_vec()
}

/// The guest function that shows that requests arrive: whatever it is asked, it
/// answers 42.
pub fn nub_smoke(_input: &[u8]) -> (answer: Vec<u8>)
    ensures
        answer@ == spec_u64_to_le_bytes(42),
{
    archived_number(42)
}

} // verus!
