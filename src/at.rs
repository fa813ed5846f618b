//! AT commands, the values they carry, and the modem's replies.
use vstd::prelude::*;
use crate::error_codes::CmsError;
use crate::errors::{HuaweiError, HuaweiResult};
use crate::text::{chars_of, push_char, push_str};

verus! {

/// The result code that ends the modem's reply to a command.
#[derive(Debug, Clone, PartialEq, Eq)]
pub enum AtResultCode {
    /// `OK`: the command ran without error.
    Okay,
    /// `CONNECT`: a connection was established.
    Connect,
    /// `RING`: an incoming call.
    Ring,
    /// `NO CARRIER`: a connection was terminated.
    NoCarrier,
    /// `ERROR`: a generic error.
    Error,
    /// `+CME ERROR: <n>`.
    CmeError(u32),
    /// `+CMS ERROR: <n>` with a known code.
    CmsError(CmsError),
    /// `+CMS ERROR: <text>`.
    CmsErrorString(String),
    /// `+CMS ERROR: <n>` with an unknown code.
    CmsErrorUnknown(u32),
    /// `NO DIALTONE`.
    NoDialtone,
    /// `BUSY`.
    Busy,
    /// `NO ANSWER`.
    NoAnswer,
    /// `COMMAND NOT SUPPORT`.
    CommandNotSupported,
    /// `TOO MANY PARAMETERS`.
    TooManyParameters,
}

/// A value in an AT command or reply.
#[derive(Debug, PartialEq, Eq)]
pub enum AtValue {
    /// Text in "quotation marks".
    String(String),
    /// An unsigned integer.
    Integer(u32),
    /// A range of integers, `a-b`.
    Range(u32, u32),
    /// A bareword: text without quotation marks.
    Unknown(String),
    /// Nothing at all.
    Empty,
    /// A list in parentheses.
    BracketedArray(Vec<AtValue>),
    /// A list without parentheses.
    Array(Vec<AtValue>),
}

/// One line of a modem's reply.
#[derive(Debug, PartialEq, Eq)]
pub enum AtResponse {
    /// `<param>: <response>`.
    InformationResponse { param: String, response: AtValue },
    /// A result code, which ends the reply to a command.
    ResultCode(AtResultCode),
    /// Any other non-empty line, trimmed.
    Unknown(String),
}

/// The complete reply to one command.
#[derive(Debug)]
pub struct AtResponsePacket {
    /// The expected information responses and the unknown lines, in order.
    pub responses: Vec<AtResponse>,
    /// The result code that ended the reply.
    pub status: AtResultCode,
}

/// An AT command.
#[derive(Debug, PartialEq, Eq)]
pub enum AtCommand {
    /// `AT<param>=<value>`.
    Equals { param: String, value: AtValue },
    /// `AT<command>`.
    Execute { command: String },
    /// `AT<param>?`.
    Read { param: String },
    /// `AT<param>=?`.
    Test { param: String },
    /// `AT<command>[<number>]`.
    Basic { command: String, number: Option<usize> },
    /// Raw text, with the information responses that it is expected to bring.
    Text { text: String, expected: Vec<String> },
}

/// The mathematical form of an `AtValue`: its text as character sequences.
pub enum ValueModel {
    Str(Seq<char>),
    Integer(u32),
    Range(u32, u32),
    Unknown(Seq<char>),
    Empty,
    BracketedArray(Seq<ValueModel>),
    Array(Seq<ValueModel>),
}

impl AtValue {
    pub open spec fn model(self) -> ValueModel
        decreases self,
    {
        match self {
            AtValue::String(s) => ValueModel::Str(s@),
            AtValue::Integer(i) => ValueModel::Integer(i),
            AtValue::Range(a, b) => ValueModel::Range(a, b),
            AtValue::Unknown(s) => ValueModel::Unknown(s@),
            AtValue::Empty => ValueModel::Empty,
            AtValue::BracketedArray(v) => ValueModel::BracketedArray(models_of(v@)),
            AtValue::Array(v) => ValueModel::Array(models_of(v@)),
        }
    }
}

/// The models of the values `s`, in order.
pub open spec fn models_of(s: Seq<AtValue>) -> Seq<ValueModel>
    decreases s,
{
    if s.len() == 0 {
        Seq::empty()
    } else {
        models_of(s.subrange(0, s.len() - 1)).push(s[s.len() - 1].model())
    }
}

/// The mathematical form of an `AtResultCode`.
pub enum CodeModel {
    Okay,
    Connect,
    Ring,
    NoCarrier,
    Error,
    CmeError(u32),
    CmsError(CmsError),
    CmsErrorString(Seq<char>),
    CmsErrorUnknown(u32),
    NoDialtone,
    Busy,
    NoAnswer,
    CommandNotSupported,
    TooManyParameters,
}

impl AtResultCode {
    pub open spec fn model(self) -> CodeModel {
        match self {
            AtResultCode::Okay => CodeModel::Okay,
            AtResultCode::Connect => CodeModel::Connect,
            AtResultCode::Ring => CodeModel::Ring,
            AtResultCode::NoCarrier => CodeModel::NoCarrier,
            AtResultCode::Error => CodeModel::Error,
            AtResultCode::CmeError(n) => CodeModel::CmeError(n),
            AtResultCode::CmsError(e) => CodeModel::CmsError(e),
            AtResultCode::CmsErrorString(s) => CodeModel::CmsErrorString(s@),
            AtResultCode::CmsErrorUnknown(n) => CodeModel::CmsErrorUnknown(n),
            AtResultCode::NoDialtone => CodeModel::NoDialtone,
            AtResultCode::Busy => CodeModel::Busy,
            AtResultCode::NoAnswer => CodeModel::NoAnswer,
            AtResultCode::CommandNotSupported => CodeModel::CommandNotSupported,
            AtResultCode::TooManyParameters => CodeModel::TooManyParameters,
        }
    }

    /// Whether this is `OK`.
    pub fn is_ok(&self) -> (r: bool)
        ensures
            r == (self.model() == CodeModel::Okay),
    {
        match self {
            AtResultCode::Okay => true,
            _ => false,
        }
    }

    /// A copy of this result code.
    pub fn duplicate(&self) -> (r: AtResultCode)
        ensures
            r.model() == self.model(),
    {
        match self {
            AtResultCode::Okay => AtResultCode::Okay,
            AtResultCode::Connect => AtResultCode::Connect,
            AtResultCode::Ring => AtResultCode::Ring,
            AtResultCode::NoCarrier => AtResultCode::NoCarrier,
            AtResultCode::Error => AtResultCode::Error,
            AtResultCode::CmeError(n) => AtResultCode::CmeError(*n),
            AtResultCode::CmsError(e) => AtResultCode::CmsError(*e),
            AtResultCode::CmsErrorString(s) => AtResultCode::CmsErrorString(s.clone()),
            AtResultCode::CmsErrorUnknown(n) => AtResultCode::CmsErrorUnknown(*n),
            AtResultCode::NoDialtone => AtResultCode::NoDialtone,
            AtResultCode::Busy => AtResultCode::Busy,
            AtResultCode::NoAnswer => AtResultCode::NoAnswer,
            AtResultCode::CommandNotSupported => AtResultCode::CommandNotSupported,
            AtResultCode::TooManyParameters => AtResultCode::TooManyParameters,
        }
    }
}

/// The mathematical form of an `AtResponse`.
pub enum ResponseModel {
    InformationResponse(Seq<char>, ValueModel),
    ResultCode(CodeModel),
    Unknown(Seq<char>),
}

impl AtResponse {
    pub open spec fn model(self) -> ResponseModel {
        match self {
            AtResponse::InformationResponse { param, response } => ResponseModel::InformationResponse(
                param@,
                response.model(),
            ),
            AtResponse::ResultCode(c) => ResponseModel::ResultCode(c.model()),
            AtResponse::Unknown(s) => ResponseModel::Unknown(s@),
        }
    }

    /// Whether this line is a result code.
    pub fn is_result_code(&self) -> (r: bool)
        ensures
            r == (self.model() is ResultCode),
    {
        match self {
            AtResponse::ResultCode(_) => true,
            _ => false,
        }
    }
}

/// The models of the responses `s`, in order.
pub open spec fn response_models(s: Seq<AtResponse>) -> Seq<ResponseModel> {
    Seq::new(s.len(), |i: int| s[i].model())
}

/// Whether two texts are the same.
pub fn str_eq(a: &str, b: &str) -> (r: bool)
    ensures
        r == (a@ == b@),
{
    let x = chars_of(a);
    let y = chars_of(b);
    if x.len() != y.len() {
        return false;
    }
    let mut i: usize = 0;
    while i < x.len()
        invariant
            x@ == a@,
            y@ == b@,
            x@.len() == y@.len(),
            i <= x@.len(),
            x@.subrange(0, i as int) == y@.subrange(0, i as int),
        decreases x@.len() - i,
    {
        if x[i] != y[i] {
            assert(x@[i as int] != y@[i as int]);
            return false;
        }
        assert(x@.subrange(0, i + 1) =~= y@.subrange(0, i + 1));
        i += 1;
    }
    assert(x@.subrange(0, x@.len() as int) == x@);
    assert(y@.subrange(0, y@.len() as int) == y@);
    true
}

/// The place of the first information response named `name` in `rs`.
pub open spec fn first_named(rs: Seq<AtResponse>, name: Seq<char>, from: int) -> Option<int>
    decreases rs.len() - from,
{
    if from < 0 || from >= rs.len() {
        None
    } else if rs[from] matches AtResponse::InformationResponse { param, .. } && param@ == name {
        Some(from)
    } else {
        first_named(rs, name, from + 1)
    }
}

/// The value of the first information response named `name` in `rs`.
pub open spec fn named_value(rs: Seq<AtResponse>, name: Seq<char>) -> Option<AtValue> {
    match first_named(rs, name, 0) {
        Some(k) => match rs[k] {
            AtResponse::InformationResponse { response, .. } => Some(response),
            _ => None,
        },
        None => None,
    }
}

/// The errors owed for a reply whose status is not `OK` (that status), or
/// that has no information response named `name` (`ExpectedResponse`).
pub open spec fn reply_errors<T>(pkt: AtResponsePacket, name: Seq<char>, r: HuaweiResult<T>) -> bool {
    &&& pkt.status.model() != CodeModel::Okay ==> (r matches Err(HuaweiError::AtError(c)) && c.model()
        == pkt.status.model())
    &&& pkt.status.model() == CodeModel::Okay && named_value(pkt.responses@, name) is None ==> (r matches Err(
        HuaweiError::ExpectedResponse(n),
    ) && n@ == name)
}

impl AtResponsePacket {
    /// `Ok` when the status is `OK`, else the status as an error.
    pub fn assert_ok(&self) -> (r: HuaweiResult<()>)
        ensures
            r is Ok <==> self.status.model() == CodeModel::Okay,
            r matches Err(e) ==> e matches HuaweiError::AtError(c) && c.model() == self.status.model(),
    {
        if self.status.is_ok() {
            Ok(())
        } else {
            Err(HuaweiError::AtError(self.status.duplicate()))
        }
    }

    /// The value of the first information response named `resp`, if any,
    /// once the status has been found to be `OK`.
    pub fn extract_named_response_opt(&self, resp: &str) -> (r: HuaweiResult<Option<&AtValue>>)
        ensures
            r is Ok <==> self.status.model() == CodeModel::Okay,
            r matches Err(e) ==> e matches HuaweiError::AtError(c) && c.model() == self.status.model(),
            r matches Ok(o) ==> (o is Some <==> first_named(self.responses@, resp@, 0) is Some),
            r matches Ok(Some(v)) ==> first_named(self.responses@, resp@, 0) matches Some(i)
                && self.responses@[i] matches AtResponse::InformationResponse { response, .. } && *v == response,
    {
        match self.assert_ok() {
            Ok(()) => {},
            Err(e) => { return Err(e); },
        }
        let mut i: usize = 0;
        while i < self.responses.len()
            invariant
                self.status.model() == CodeModel::Okay,
                i <= self.responses@.len(),
                first_named(self.responses@, resp@, 0) == first_named(self.responses@, resp@, i as int),
            decreases self.responses@.len() - i,
        {
            match &self.responses[i] {
                AtResponse::InformationResponse { param, response } => {
                    if str_eq(resp, param.as_str()) {
                        return Ok(Some(response));
                    }
                },
                _ => {},
            }
            i += 1;
        }
        Ok(None)
    }

    /// Like `extract_named_response_opt`, but a missing response is an
    /// `ExpectedResponse` error.
    pub fn extract_named_response(&self, resp: &str) -> (r: HuaweiResult<&AtValue>)
        ensures
            self.status.model() != CodeModel::Okay ==> (r matches Err(HuaweiError::AtError(c)) && c.model()
                == self.status.model()),
            self.status.model() == CodeModel::Okay && first_named(self.responses@, resp@, 0) is None ==> (r matches Err(
                HuaweiError::ExpectedResponse(n),
            ) && n@ == resp@),
            r matches Ok(v) ==> first_named(self.responses@, resp@, 0) matches Some(i)
                && self.responses@[i] matches AtResponse::InformationResponse { response, .. } && *v == response,
            self.status.model() == CodeModel::Okay && first_named(self.responses@, resp@, 0) is Some ==> r is Ok,
    {
        match self.extract_named_response_opt(resp) {
            Ok(Some(v)) => Ok(v),
            Ok(None) => Err(HuaweiError::ExpectedResponse(resp.to_owned())),
            Err(e) => Err(e),
        }
    }
}

/// The names of the information responses a command expects.
pub open spec fn spec_expected(c: AtCommand) -> Seq<Seq<char>> {
    match c {
        AtCommand::Equals { param, .. } => seq![param@],
        AtCommand::Execute { command } => seq![command@],
        AtCommand::Read { param } => seq![param@],
        AtCommand::Test { param } => seq![param@],
        AtCommand::Basic { command, .. } => seq![command@],
        AtCommand::Text { expected, .. } => Seq::new(expected@.len(), |i: int| expected@[i]@),
    }
}

/// The texts of the strings `v`, in order.
pub open spec fn strings_view(v: Seq<String>) -> Seq<Seq<char>> {
    Seq::new(v.len(), |i: int| v[i]@)
}

impl AtCommand {
    /// The names of the information responses this command expects: its
    /// parameter or command name, or for raw text the names given with it.
    /// Any other information response that comes meanwhile is unsolicited.
    pub fn expected(&self) -> (r: Vec<String>)
        ensures
            strings_view(r@) == spec_expected(*self),
    {
        let r = match self {
            AtCommand::Equals { param, .. } => vec![param.clone()],
            AtCommand::Execute { command } => vec![command.clone()],
            AtCommand::Read { param } => vec![param.clone()],
            AtCommand::Test { param } => vec![param.clone()],
            AtCommand::Basic { command, .. } => vec![command.clone()],
            AtCommand::Text { expected, .. } => {
                let mut out: Vec<String> = Vec::new();
                let mut i: usize = 0;
                while i < expected.len()
                    invariant
                        i <= expected@.len(),
                        strings_view(out@) == strings_view(expected@.subrange(0, i as int)),
                    decreases expected@.len() - i,
                {
                    let ghost before = out@;
                    out.push(expected[i].clone());
                    assert(out@ == before.push(expected@[i as int]));
                    proof {
                        let a = strings_view(out@);
                        let b = strings_view(expected@.subrange(0, i + 1));
                        let c = strings_view(before);
                        let d = strings_view(expected@.subrange(0, i as int));
                        assert(c.len() == d.len());
                        assert forall|j: int| 0 <= j < a.len() implies a[j] == b[j] by {
                            if j < i {
                                assert(c[j] == d[j]);
                            }
                        }
                        assert(a =~= b);
                    }
                    i += 1;
                }
                assert(expected@.subrange(0, expected@.len() as int) == expected@);
                out
            },
        };
        assert(strings_view(r@) =~= spec_expected(*self));
        r
    }
}

/// The decimal digits of `n`.
pub open spec fn decimal_text(n: nat) -> Seq<char>
    decreases n,
{
    if n < 10 {
        seq![(n + 0x30) as char]
    } else {
        decimal_text(n / 10).push((n % 10 + 0x30) as char)
    }
}

pub fn push_decimal(out: &mut String, n: usize)
    ensures
        final(out)@ == old(out)@ + decimal_text(n as nat),
    decreases n,
{
    if n >= 10 {
        push_decimal(out, n / 10);
    }
    push_char(out, ((n % 10) as u8 + 0x30) as char);
    assert(final(out)@ =~= old(out)@ + decimal_text(n as nat));
}

/// How a value is written on the command line: strings in quotation marks,
/// integers in decimal, ranges as `a-b`, lists joined by commas (in
/// parentheses when bracketed), `Empty` as nothing.
pub open spec fn value_text(m: ValueModel) -> Seq<char>
    decreases m,
{
    match m {
        ValueModel::Str(t) => seq!['"'] + t + seq!['"'],
        ValueModel::Integer(i) => decimal_text(i as nat),
        ValueModel::Range(a, b) => decimal_text(a as nat) + seq!['-'] + decimal_text(b as nat),
        ValueModel::Unknown(t) => t,
        ValueModel::Empty => Seq::empty(),
        ValueModel::BracketedArray(items) => seq!['('] + list_text(items) + seq![')'],
        ValueModel::Array(items) => list_text(items),
    }
}

/// The texts of `items`, joined by commas.
pub open spec fn list_text(items: Seq<ValueModel>) -> Seq<char>
    decreases items,
{
    if items.len() == 0 {
        Seq::empty()
    } else if items.len() == 1 {
        value_text(items[0])
    } else {
        list_text(items.subrange(0, items.len() - 1)) + seq![','] + value_text(items[items.len() - 1])
    }
}

impl AtValue {
    fn write_to(&self, out: &mut String)
        ensures
            final(out)@ == old(out)@ + value_text(self.model()),
        decreases self,
    {
        match self {
            AtValue::String(s) => {
                push_char(out, '"');
                push_str(out, s.as_str());
                push_char(out, '"');
            },
            AtValue::Integer(i) => push_decimal(out, *i as usize),
            AtValue::Range(a, b) => {
                push_decimal(out, *a as usize);
                push_char(out, '-');
                push_decimal(out, *b as usize);
            },
            AtValue::Unknown(s) => push_str(out, s.as_str()),
            AtValue::Empty => {},
            AtValue::BracketedArray(v) => {
                push_char(out, '(');
                write_list(v, out);
                push_char(out, ')');
            },
            AtValue::Array(v) => write_list(v, out),
        }
        assert(final(out)@ =~= old(out)@ + value_text(self.model()));
    }

    /// The value as written on the command line.
    pub fn to_string(&self) -> (r: String)
        ensures
            r@ == value_text(self.model()),
    {
        let mut out = String::new();
        self.write_to(&mut out);
        assert(out@ =~= value_text(self.model()));
        out
    }
}

fn write_list(v: &Vec<AtValue>, out: &mut String)
    ensures
        final(out)@ == old(out)@ + list_text(models_of(v@)),
    decreases v,
{
    let ghost start = out@;
    let mut i: usize = 0;
    proof {
        lemma_models_of_len(v@);
    }
    while i < v.len()
        invariant
            i <= v@.len(),
            out@ == start + list_text(models_of(v@.subrange(0, i as int))),
            models_of(v@).len() == v@.len(),
        decreases v@.len() - i,
    {
        if i > 0 {
            push_char(out, ',');
        }
        assert(decreases_to!(v => v@[i as int]));
        v[i].write_to(out);
        proof {
            let p = v@.subrange(0, i + 1);
            assert(p.subrange(0, p.len() - 1) == v@.subrange(0, i as int));
            assert(p[p.len() - 1] == v@[i as int]);
            lemma_models_of_len(p);
            lemma_models_of_len(v@.subrange(0, i as int));
            assert(models_of(p).subrange(0, models_of(p).len() - 1) =~= models_of(v@.subrange(0, i as int)));
            if i == 0 {
                assert(models_of(v@.subrange(0, 0)) =~= Seq::<ValueModel>::empty());
            }
        }
        i += 1;
    }
    assert(v@.subrange(0, v@.len() as int) == v@);
}

proof fn lemma_models_of_len(s: Seq<AtValue>)
    ensures
        models_of(s).len() == s.len(),
        s.len() > 0 ==> models_of(s)[s.len() - 1] == s[s.len() - 1].model(),
        s.len() > 0 ==> models_of(s).subrange(0, s.len() - 1) == models_of(s.subrange(0, s.len() - 1)),
    decreases s.len(),
{
    if s.len() > 0 {
        lemma_models_of_len(s.subrange(0, s.len() - 1));
        assert(models_of(s).subrange(0, s.len() - 1) =~= models_of(s.subrange(0, s.len() - 1)));
    }
}

/// How a command is written on the command line.
pub open spec fn command_text(c: AtCommand) -> Seq<char> {
    let at = seq!['A', 'T'];
    match c {
        AtCommand::Equals { param, value } => at + param@ + seq!['='] + value_text(value.model()),
        AtCommand::Execute { command } => at + command@,
        AtCommand::Read { param } => at + param@ + seq!['?'],
        AtCommand::Test { param } => at + param@ + seq!['=', '?'],
        AtCommand::Basic { command, number } => at + command@ + match number {
            Some(n) => decimal_text(n as nat),
            None => Seq::empty(),
        },
        AtCommand::Text { text, .. } => text@,
    }
}

impl AtCommand {
    /// The command as written on the command line.
    pub fn to_string(&self) -> (r: String)
        ensures
            r@ == command_text(*self),
    {
        let mut out = String::new();
        match self {
            AtCommand::Text { text, .. } => {
                push_str(&mut out, text.as_str());
            },
            _ => {
                push_char(&mut out, 'A');
                push_char(&mut out, 'T');
                match self {
                    AtCommand::Equals { param, value } => {
                        push_str(&mut out, param.as_str());
                        push_char(&mut out, '=');
                        value.write_to(&mut out);
                    },
                    AtCommand::Execute { command } => push_str(&mut out, command.as_str()),
                    AtCommand::Read { param } => {
                        push_str(&mut out, param.as_str());
                        push_char(&mut out, '?');
                    },
                    AtCommand::Test { param } => {
                        push_str(&mut out, param.as_str());
                        push_char(&mut out, '=');
                        push_char(&mut out, '?');
                    },
                    AtCommand::Basic { command, number } => {
                        push_str(&mut out, command.as_str());
                        if let Some(n) = number {
                            push_decimal(&mut out, *n);
                        }
                    },
                    AtCommand::Text { .. } => {},
                }
            },
        }
        assert(out@ =~= command_text(*self));
        out
    }
}

impl AtValue {
    /// The contents of a `String` value; any other value is a `TypeMismatch`.
    pub fn get_string(&self) -> (r: HuaweiResult<&String>)
        ensures
            r is Ok <==> self is String,
            r matches Ok(x) ==> self == AtValue::String(*x),
            r matches Err(e) ==> e == HuaweiError::TypeMismatch,
    {
        match self {
            AtValue::String(x) => Ok(x),
            _ => Err(HuaweiError::TypeMismatch),
        }
    }

    /// Like `get_string`, taking the value.
    pub fn as_string(self) -> (r: HuaweiResult<String>)
        ensures
            r is Ok <==> self is String,
            r matches Ok(x) ==> self == AtValue::String(x),
            r matches Err(e) ==> e == HuaweiError::TypeMismatch,
    {
        match self {
            AtValue::String(x) => Ok(x),
            _ => Err(HuaweiError::TypeMismatch),
        }
    }

    /// The contents of a `Integer` value; any other value is a `TypeMismatch`.
    pub fn get_integer(&self) -> (r: HuaweiResult<&u32>)
        ensures
            r is Ok <==> self is Integer,
            r matches Ok(x) ==> self == AtValue::Integer(*x),
            r matches Err(e) ==> e == HuaweiError::TypeMismatch,
    {
        match self {
            AtValue::Integer(x) => Ok(x),
            _ => Err(HuaweiError::TypeMismatch),
        }
    }

    /// Like `get_integer`, taking the value.
    pub fn as_integer(self) -> (r: HuaweiResult<u32>)
        ensures
            r is Ok <==> self is Integer,
            r matches Ok(x) ==> self == AtValue::Integer(x),
            r matches Err(e) ==> e == HuaweiError::TypeMismatch,
    {
        match self {
            AtValue::Integer(x) => Ok(x),
            _ => Err(HuaweiError::TypeMismatch),
        }
    }

    /// The contents of a `Unknown` value; any other value is a `TypeMismatch`.
    pub fn get_unknown(&self) -> (r: HuaweiResult<&String>)
        ensures
            r is Ok <==> self is Unknown,
            r matches Ok(x) ==> self == AtValue::Unknown(*x),
            r matches Err(e) ==> e == HuaweiError::TypeMismatch,
    {
        match self {
            AtValue::Unknown(x) => Ok(x),
            _ => Err(HuaweiError::TypeMismatch),
        }
    }

    /// Like `get_unknown`, taking the value.
    pub fn as_unknown(self) -> (r: HuaweiResult<String>)
        ensures
            r is Ok <==> self is Unknown,
            r matches Ok(x) ==> self == AtValue::Unknown(x),
            r matches Err(e) ==> e == HuaweiError::TypeMismatch,
    {
        match self {
            AtValue::Unknown(x) => Ok(x),
            _ => Err(HuaweiError::TypeMismatch),
        }
    }

    /// The contents of a `BracketedArray` value; any other value is a `TypeMismatch`.
    pub fn get_bracketed_array(&self) -> (r: HuaweiResult<&Vec<AtValue>>)
        ensures
            r is Ok <==> self is BracketedArray,
            r matches Ok(x) ==> self == AtValue::BracketedArray(*x),
            r matches Err(e) ==> e == HuaweiError::TypeMismatch,
    {
        match self {
            AtValue::BracketedArray(x) => Ok(x),
            _ => Err(HuaweiError::TypeMismatch),
        }
    }

    /// Like `get_bracketed_array`, taking the value.
    pub fn as_bracketed_array(self) -> (r: HuaweiResult<Vec<AtValue>>)
        ensures
            r is Ok <==> self is BracketedArray,
            r matches Ok(x) ==> self == AtValue::BracketedArray(x),
            r matches Err(e) ==> e == HuaweiError::TypeMismatch,
    {
        match self {
            AtValue::BracketedArray(x) => Ok(x),
            _ => Err(HuaweiError::TypeMismatch),
        }
    }

    /// The contents of a `Array` value; any other value is a `TypeMismatch`.
    pub fn get_array(&self) -> (r: HuaweiResult<&Vec<AtValue>>)
        ensures
            r is Ok <==> self is Array,
            r matches Ok(x) ==> self == AtValue::Array(*x),
            r matches Err(e) ==> e == HuaweiError::TypeMismatch,
    {
        match self {
            AtValue::Array(x) => Ok(x),
            _ => Err(HuaweiError::TypeMismatch),
        }
    }

    /// Like `get_array`, taking the value.
    pub fn as_array(self) -> (r: HuaweiResult<Vec<AtValue>>)
        ensures
            r is Ok <==> self is Array,
            r matches Ok(x) ==> self == AtValue::Array(x),
            r matches Err(e) ==> e == HuaweiError::TypeMismatch,
    {
        match self {
            AtValue::Array(x) => Ok(x),
            _ => Err(HuaweiError::TypeMismatch),
        }
    }

    /// The two ends of a `Range` value; any other value is a `TypeMismatch`.
    pub fn get_range(&self) -> (r: HuaweiResult<(u32, u32)>)
        ensures
            r is Ok <==> self is Range,
            r matches Ok((a, b)) ==> *self == AtValue::Range(a, b),
            r matches Err(e) ==> e == HuaweiError::TypeMismatch,
    {
        match self {
            AtValue::Range(a, b) => Ok((*a, *b)),
            _ => Err(HuaweiError::TypeMismatch),
        }
    }
}

} // verus!
