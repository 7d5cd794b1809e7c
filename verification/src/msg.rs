use vstd::prelude::*;
use crate::error::{KvError, KvErrorV, spec_error_message, spec_error_status};
use crate::value::{Kvpair, KvpairV, Value, ValueV};

verus! {

/// View of a sequence of strings.
pub open spec fn seq_str_view(s: Seq<String>) -> Seq<Seq<char>> {
    s.map_values(|x: String| x@)
}

/// View of a sequence of values.
pub open spec fn seq_value_view(s: Seq<Value>) -> Seq<ValueV> {
    s.map_values(|x: Value| x@)
}

/// View of a sequence of pairs.
pub open spec fn seq_pair_view(s: Seq<Kvpair>) -> Seq<KvpairV> {
    s.map_values(|x: Kvpair| x@)
}

/// Mathematical models of the per-operation request payloads.
#[verifier::ext_equal]
pub struct HgetV { pub table: Seq<char>, pub key: Seq<char> }

#[verifier::ext_equal]
pub struct HgetallV { pub table: Seq<char> }

#[verifier::ext_equal]
pub struct HmgetV { pub table: Seq<char>, pub keys: Seq<Seq<char>> }

#[verifier::ext_equal]
pub struct HsetV { pub table: Seq<char>, pub pair: Option<KvpairV> }

#[verifier::ext_equal]
pub struct HmsetV { pub table: Seq<char>, pub pairs: Seq<KvpairV> }

#[verifier::ext_equal]
pub struct HdelV { pub table: Seq<char>, pub key: Seq<char> }

#[verifier::ext_equal]
pub struct HmdelV { pub table: Seq<char>, pub keys: Seq<Seq<char>> }

#[verifier::ext_equal]
pub struct HexistV { pub table: Seq<char>, pub key: Seq<char> }

#[verifier::ext_equal]
pub struct HmexistV { pub table: Seq<char>, pub keys: Seq<Seq<char>> }

#[verifier::ext_equal]
pub struct SubscribeV { pub topic: Seq<char> }

#[verifier::ext_equal]
pub struct UnsubscribeV { pub topic: Seq<char>, pub id: u32 }

#[verifier::ext_equal]
pub struct PublishV { pub topic: Seq<char>, pub data: Seq<ValueV> }

/// Mathematical model of the operation carried by a request.
#[verifier::ext_equal]
pub enum RequestDataV {
    Hget(HgetV),
    Hgetall(HgetallV),
    Hmget(HmgetV),
    Hset(HsetV),
    Hmset(HmsetV),
    Hdel(HdelV),
    Hmdel(HmdelV),
    Hexist(HexistV),
    Hmexist(HmexistV),
    Subscribe(SubscribeV),
    Unsubscribe(UnsubscribeV),
    Publish(PublishV),
}

/// Mathematical model of a request: at most one operation is populated.
#[verifier::ext_equal]
pub struct ReqV {
    pub data: Option<RequestDataV>,
}

/// Mathematical model of a response.
#[verifier::ext_equal]
pub struct RespV {
    pub status: u32,
    pub message: Seq<char>,
    pub values: Seq<ValueV>,
    pub pairs: Seq<KvpairV>,
}

/// Fetch one key from a table.
#[derive(Debug, PartialEq, Clone)]
pub struct Hget { pub table: String, pub key: String }

/// Fetch every pair of a table.
#[derive(Debug, PartialEq, Clone)]
pub struct Hgetall { pub table: String }

/// Fetch several keys from a table.
#[derive(Debug, PartialEq, Clone)]
pub struct Hmget { pub table: String, pub keys: Vec<String> }

/// Store one pair in a table.
#[derive(Debug, PartialEq, Clone)]
pub struct Hset { pub table: String, pub pair: Option<Kvpair> }

/// Store several pairs in a table.
#[derive(Debug, PartialEq, Clone)]
pub struct Hmset { pub table: String, pub pairs: Vec<Kvpair> }

/// Remove one key from a table.
#[derive(Debug, PartialEq, Clone)]
pub struct Hdel { pub table: String, pub key: String }

/// Remove several keys from a table.
#[derive(Debug, PartialEq, Clone)]
pub struct Hmdel { pub table: String, pub keys: Vec<String> }

/// Test one key for presence in a table.
#[derive(Debug, PartialEq, Clone)]
pub struct Hexist { pub table: String, pub key: String }

/// Test several keys for presence in a table.
#[derive(Debug, PartialEq, Clone)]
pub struct Hmexist { pub table: String, pub keys: Vec<String> }

/// Subscribe to a topic.
#[derive(Debug, PartialEq, Clone)]
pub struct Subscribe { pub topic: String }

/// Drop one subscription from a topic.
#[derive(Debug, PartialEq, Clone)]
pub struct Unsubscribe { pub topic: String, pub id: u32 }

/// Publish values to every subscriber of a topic.
#[derive(Debug, PartialEq, Clone)]
pub struct Publish { pub topic: String, pub data: Vec<Value> }

/// The operation a request carries; exactly one variant is populated.
#[derive(Debug, PartialEq, Clone)]
pub enum RequestData {
    Hget(Hget),
    Hgetall(Hgetall),
    Hmget(Hmget),
    Hset(Hset),
    Hmset(Hmset),
    Hdel(Hdel),
    Hmdel(Hmdel),
    Hexist(Hexist),
    Hmexist(Hmexist),
    Subscribe(Subscribe),
    Unsubscribe(Unsubscribe),
    Publish(Publish),
}

/// A client request: one operation, or nothing (which the dispatcher
/// rejects as an invalid command).
#[derive(Debug, PartialEq, Clone)]
pub struct CommandRequest {
    pub request_data: Option<RequestData>,
}

/// One synchronous operation result: an HTTP-style status code, a message
/// (empty on success), and the values or pairs the operation produced.
#[derive(Debug, PartialEq)]
pub struct CommandResponse {
    pub status: u32,
    pub message: String,
    pub values: Vec<Value>,
    pub pairs: Vec<Kvpair>,
}

impl View for Hget {
    type V = HgetV;

    open spec fn view(&self) -> HgetV {
        HgetV { table: self.table@, key: self.key@ }
    }
}

impl View for Hgetall {
    type V = HgetallV;

    open spec fn view(&self) -> HgetallV {
        HgetallV { table: self.table@ }
    }
}

impl View for Hmget {
    type V = HmgetV;

    open spec fn view(&self) -> HmgetV {
        HmgetV { table: self.table@, keys: seq_str_view(self.keys@) }
    }
}

impl View for Hset {
    type V = HsetV;

    open spec fn view(&self) -> HsetV {
        HsetV {
            table: self.table@,
            pair: match self.pair {
                Some(p) => Some(p@),
                None => None,
            },
        }
    }
}

impl View for Hmset {
    type V = HmsetV;

    open spec fn view(&self) -> HmsetV {
        HmsetV { table: self.table@, pairs: seq_pair_view(self.pairs@) }
    }
}

impl View for Hdel {
    type V = HdelV;

    open spec fn view(&self) -> HdelV {
        HdelV { table: self.table@, key: self.key@ }
    }
}

impl View for Hmdel {
    type V = HmdelV;

    open spec fn view(&self) -> HmdelV {
        HmdelV { table: self.table@, keys: seq_str_view(self.keys@) }
    }
}

impl View for Hexist {
    type V = HexistV;

    open spec fn view(&self) -> HexistV {
        HexistV { table: self.table@, key: self.key@ }
    }
}

impl View for Hmexist {
    type V = HmexistV;

    open spec fn view(&self) -> HmexistV {
        HmexistV { table: self.table@, keys: seq_str_view(self.keys@) }
    }
}

impl View for Subscribe {
    type V = SubscribeV;

    open spec fn view(&self) -> SubscribeV {
        SubscribeV { topic: self.topic@ }
    }
}

impl View for Unsubscribe {
    type V = UnsubscribeV;

    open spec fn view(&self) -> UnsubscribeV {
        UnsubscribeV { topic: self.topic@, id: self.id }
    }
}

impl View for Publish {
    type V = PublishV;

    open spec fn view(&self) -> PublishV {
        PublishV { topic: self.topic@, data: seq_value_view(self.data@) }
    }
}

impl View for RequestData {
    type V = RequestDataV;

    open spec fn view(&self) -> RequestDataV {
        match self {
            RequestData::Hget(p) => RequestDataV::Hget(p@),
            RequestData::Hgetall(p) => RequestDataV::Hgetall(p@),
            RequestData::Hmget(p) => RequestDataV::Hmget(p@),
            RequestData::Hset(p) => RequestDataV::Hset(p@),
            RequestData::Hmset(p) => RequestDataV::Hmset(p@),
            RequestData::Hdel(p) => RequestDataV::Hdel(p@),
            RequestData::Hmdel(p) => RequestDataV::Hmdel(p@),
            RequestData::Hexist(p) => RequestDataV::Hexist(p@),
            RequestData::Hmexist(p) => RequestDataV::Hmexist(p@),
            RequestData::Subscribe(p) => RequestDataV::Subscribe(p@),
            RequestData::Unsubscribe(p) => RequestDataV::Unsubscribe(p@),
            RequestData::Publish(p) => RequestDataV::Publish(p@),
        }
    }
}

impl View for CommandRequest {
    type V = ReqV;

    open spec fn view(&self) -> ReqV {
        ReqV {
            data: match self.request_data {
                Some(d) => Some(d@),
                None => None,
            },
        }
    }
}

impl View for CommandResponse {
    type V = RespV;

    open spec fn view(&self) -> RespV {
        RespV {
            status: self.status,
            message: self.message@,
            values: seq_value_view(self.values@),
            pairs: seq_pair_view(self.pairs@),
        }
    }
}

impl Clone for CommandResponse {
    fn clone(&self) -> (r: Self)
        ensures
            r@ == self@,
    {
        let values = clone_values(&self.values);
        let pairs = clone_pairs(&self.pairs);
        CommandResponse {
            status: self.status,
            message: self.message.clone(),
            values,
            pairs,
        }
    }
}

/// Copies a list of values, preserving its view.
pub fn clone_values(v: &Vec<Value>) -> (r: Vec<Value>)
    ensures
        seq_value_view(r@) == seq_value_view(v@),
{
    let mut r: Vec<Value> = Vec::new();
    let mut i: usize = 0;
    while i < v.len()
        invariant
            i <= v.len(),
            r@.len() == i,
            forall|j: int| 0 <= j < i ==> r@[j]@ == v@[j]@,
        decreases v.len() - i,
    {
        r.push(v[i].clone());
        i = i + 1;
    }
    proof {
        assert(seq_value_view(r@) =~= seq_value_view(v@));
    }
    r
}

/// Copies a list of pairs, preserving its view.
pub fn clone_pairs(v: &Vec<Kvpair>) -> (r: Vec<Kvpair>)
    ensures
        seq_pair_view(r@) == seq_pair_view(v@),
{
    let mut r: Vec<Kvpair> = Vec::new();
    let mut i: usize = 0;
    while i < v.len()
        invariant
            i <= v.len(),
            r@.len() == i,
            forall|j: int| 0 <= j < i ==> r@[j]@ == v@[j]@,
        decreases v.len() - i,
    {
        r.push(v[i].clone());
        i = i + 1;
    }
    proof {
        assert(seq_pair_view(r@) =~= seq_pair_view(v@));
    }
    r
}

impl CommandRequest {
    /// Builds an `Hset` request storing `value` under `key` in `table`.
    pub fn new_hset(table: &str, key: &str, value: Value) -> (r: Self)
        ensures
            r@.data == Some(RequestDataV::Hset(HsetV {
                table: table@,
                pair: Some(KvpairV { key: key@, val: Some(value@) }),
            })),
    {
        CommandRequest {
            request_data: Some(RequestData::Hset(Hset {
                table: table.to_owned(),
                pair: Some(Kvpair::new(key, value)),
            })),
        }
    }

    /// Builds an `Hmset` request storing each of `pairs` in `table`.
    pub fn new_hmset(table: &str, pairs: Vec<Kvpair>) -> (r: Self)
        ensures
            r@.data == Some(RequestDataV::Hmset(HmsetV {
                table: table@,
                pairs: seq_pair_view(pairs@),
            })),
    {
        CommandRequest {
            request_data: Some(RequestData::Hmset(Hmset { table: table.to_owned(), pairs })),
        }
    }

    /// Builds an `Hget` request fetching `key` from `table`.
    pub fn new_hget(table: &str, key: &str) -> (r: Self)
        ensures
            r@.data == Some(RequestDataV::Hget(HgetV { table: table@, key: key@ })),
    {
        CommandRequest {
            request_data: Some(RequestData::Hget(Hget {
                table: table.to_owned(),
                key: key.to_owned(),
            })),
        }
    }

    /// Builds an `Hgetall` request fetching every pair of `table`.
    pub fn new_hgetall(table: &str) -> (r: Self)
        ensures
            r@.data == Some(RequestDataV::Hgetall(HgetallV { table: table@ })),
    {
        CommandRequest {
            request_data: Some(RequestData::Hgetall(Hgetall { table: table.to_owned() })),
        }
    }

    /// Builds an `Hmget` request fetching each of `keys` from `table`.
    pub fn new_hmget(table: &str, keys: Vec<String>) -> (r: Self)
        ensures
            r@.data == Some(RequestDataV::Hmget(HmgetV {
                table: table@,
                keys: seq_str_view(keys@),
            })),
    {
        CommandRequest {
            request_data: Some(RequestData::Hmget(Hmget { table: table.to_owned(), keys })),
        }
    }

    /// Builds an `Hdel` request removing `key` from `table`.
    pub fn new_hdel(table: &str, key: &str) -> (r: Self)
        ensures
            r@.data == Some(RequestDataV::Hdel(HdelV { table: table@, key: key@ })),
    {
        CommandRequest {
            request_data: Some(RequestData::Hdel(Hdel {
                table: table.to_owned(),
                key: key.to_owned(),
            })),
        }
    }

    /// Builds an `Hmdel` request removing each of `keys` from `table`.
    pub fn new_hmdel(table: &str, keys: Vec<String>) -> (r: Self)
        ensures
            r@.data == Some(RequestDataV::Hmdel(HmdelV {
                table: table@,
                keys: seq_str_view(keys@),
            })),
    {
        CommandRequest {
            request_data: Some(RequestData::Hmdel(Hmdel { table: table.to_owned(), keys })),
        }
    }

    /// Builds an `Hexist` request testing `key` for presence in `table`.
    pub fn new_hexist(table: &str, key: &str) -> (r: Self)
        ensures
            r@.data == Some(RequestDataV::Hexist(HexistV { table: table@, key: key@ })),
    {
        CommandRequest {
            request_data: Some(RequestData::Hexist(Hexist {
                table: table.to_owned(),
                key: key.to_owned(),
            })),
        }
    }

    /// Builds an `Hmexist` request testing each of `keys` for presence in
    /// `table`.
    pub fn new_hmexist(table: &str, keys: Vec<String>) -> (r: Self)
        ensures
            r@.data == Some(RequestDataV::Hmexist(HmexistV {
                table: table@,
                keys: seq_str_view(keys@),
            })),
    {
        CommandRequest {
            request_data: Some(RequestData::Hmexist(Hmexist { table: table.to_owned(), keys })),
        }
    }

    /// Builds a `Subscribe` request for `name`.
    pub fn new_subscribe(name: &str) -> (r: Self)
        ensures
            r@.data == Some(RequestDataV::Subscribe(SubscribeV { topic: name@ })),
    {
        CommandRequest {
            request_data: Some(RequestData::Subscribe(Subscribe { topic: name.to_owned() })),
        }
    }

    /// Builds an `Unsubscribe` request dropping subscription `id` from `name`.
    pub fn new_unsubscribe(name: &str, id: u32) -> (r: Self)
        ensures
            r@.data == Some(RequestDataV::Unsubscribe(UnsubscribeV { topic: name@, id })),
    {
        CommandRequest {
            request_data: Some(RequestData::Unsubscribe(Unsubscribe {
                topic: name.to_owned(),
                id,
            })),
        }
    }

    /// Builds a `Publish` request sending `data` to every subscriber of
    /// `name`.
    pub fn new_publish(name: &str, data: Vec<Value>) -> (r: Self)
        ensures
            r@.data == Some(RequestDataV::Publish(PublishV {
                topic: name@,
                data: seq_value_view(data@),
            })),
    {
        CommandRequest {
            request_data: Some(RequestData::Publish(Publish { topic: name.to_owned(), data })),
        }
    }

    /// A debug rendering of the request.
    /// Relies on the standard `format!` machinery over the derived `Debug`
    /// implementation; the text depends on the request alone.
    #[verifier::external_body]
    pub fn format(&self) -> (r: String)
        ensures
            r@ == request_debug(self@),
    {
        format!("{:?}", self)
    }
}

/// The debug rendering of a request, as produced by the standard formatting
/// machinery; a function of the request alone.
pub uninterp spec fn request_debug(r: ReqV) -> Seq<char>;

/// The debug rendering of a response, as produced by the standard formatting
/// machinery; a function of the response alone.
pub uninterp spec fn response_debug(r: RespV) -> Seq<char>;

/// The response model that reports plain success: status 200 and nothing
/// else.
pub open spec fn spec_resp_ok() -> RespV {
    RespV {
        status: 200,
        message: Seq::<char>::empty(),
        values: Seq::<ValueV>::empty(),
        pairs: Seq::<KvpairV>::empty(),
    }
}

/// The response model carrying the given values under status 200.
pub open spec fn spec_resp_values(values: Seq<ValueV>) -> RespV {
    RespV {
        status: 200,
        message: Seq::<char>::empty(),
        values,
        pairs: Seq::<KvpairV>::empty(),
    }
}

/// The response model carrying the given pairs under status 200.
pub open spec fn spec_resp_pairs(pairs: Seq<KvpairV>) -> RespV {
    RespV {
        status: 200,
        message: Seq::<char>::empty(),
        values: Seq::<ValueV>::empty(),
        pairs,
    }
}

/// The response model reporting the given error: its status code and text,
/// with no values and no pairs.
pub open spec fn spec_resp_error(e: KvErrorV) -> RespV {
    RespV {
        status: spec_error_status(e),
        message: spec_error_message(e),
        values: Seq::<ValueV>::empty(),
        pairs: Seq::<KvpairV>::empty(),
    }
}

impl CommandResponse {
    /// The response that reports plain success.
    pub fn ok() -> (r: Self)
        ensures
            r@ == spec_resp_ok(),
    {
        let r = CommandResponse {
            status: 200,
            message: String::new(),
            values: Vec::new(),
            pairs: Vec::new(),
        };
        proof {
            assert(r@ =~~= spec_resp_ok());
        }
        r
    }

    /// The response that reports an internal failure with the given text.
    pub fn internal_error(msg: String) -> (r: Self)
        ensures
            r@ == (RespV {
                status: 500,
                message: msg@,
                values: Seq::<ValueV>::empty(),
                pairs: Seq::<KvpairV>::empty(),
            }),
    {
        let r = CommandResponse {
            status: 500,
            message: msg,
            values: Vec::new(),
            pairs: Vec::new(),
        };
        proof {
            assert(seq_value_view(r.values@) =~= Seq::<ValueV>::empty());
            assert(seq_pair_view(r.pairs@) =~= Seq::<KvpairV>::empty());
        }
        r
    }

    /// A debug rendering of the response.
    /// Relies on the standard `format!` machinery over the derived `Debug`
    /// implementation; the text depends on the response alone.
    #[verifier::external_body]
    pub fn format(&self) -> (r: String)
        ensures
            r@ == response_debug(self@),
    {
        format!("{:?}", self)
    }

    /// The integer payload of the first value of a successful response, or a
    /// `ConvertError` when the response is not a status-200 response carrying
    /// an integer first value.
    pub fn first_value_as_i64(&self) -> (r: Result<i64, KvError>)
        ensures
            match r {
                Ok(i) => self@.status == 200 && self@.values.len() > 0
                    && self@.values[0].val == Some(crate::value::VariantV::Int(i)),
                Err(e) => e@ is ConvertError && (self@.status != 200
                    || self@.values.len() == 0
                    || forall|i: i64|
                        self@.values[0].val != Some(crate::value::VariantV::Int(i))),
            },
    {
        if self.status != 200 {
            return Err(KvError::ConvertError(self.format(), String::from_str("CommandResponse")));
        }
        if self.values.len() == 0 {
            return Err(KvError::ConvertError(self.format(), String::from_str("CommandResponse")));
        }
        self.values[0].as_i64()
    }
}

impl From<Value> for CommandResponse {
    /// A single value becomes a status-200 response carrying just that value.
    fn from(v: Value) -> (r: Self)
        ensures
            r@ == spec_resp_values(seq![v@]),
    {
        let values: Vec<Value> = vec![v];
        let r = CommandResponse {
            status: 200,
            message: String::new(),
            values,
            pairs: Vec::new(),
        };
        proof {
            assert(r@ =~~= spec_resp_values(seq![v@]));
        }
        r
    }
}

impl vstd::std_specs::convert::FromSpecImpl<Value> for CommandResponse {
    open spec fn obeys_from_spec() -> bool {
        false
    }

    open spec fn from_spec(v: Value) -> Self {
        CommandResponse { status: 200, message: arbitrary(), values: arbitrary(), pairs: arbitrary() }
    }
}

impl From<Vec<Value>> for CommandResponse {
    /// A list of values becomes a status-200 response carrying those values.
    fn from(v: Vec<Value>) -> (r: Self)
        ensures
            r@ == spec_resp_values(seq_value_view(v@)),
    {
        let r = CommandResponse {
            status: 200,
            message: String::new(),
            values: v,
            pairs: Vec::new(),
        };
        proof {
            assert(r@ =~~= spec_resp_values(seq_value_view(r.values@)));
        }
        r
    }
}

impl vstd::std_specs::convert::FromSpecImpl<Vec<Value>> for CommandResponse {
    open spec fn obeys_from_spec() -> bool {
        false
    }

    open spec fn from_spec(v: Vec<Value>) -> Self {
        CommandResponse { status: 200, message: arbitrary(), values: v, pairs: arbitrary() }
    }
}

impl From<Vec<Kvpair>> for CommandResponse {
    /// A list of pairs becomes a status-200 response carrying those pairs.
    fn from(pairs: Vec<Kvpair>) -> (r: Self)
        ensures
            r@ == spec_resp_pairs(seq_pair_view(pairs@)),
    {
        let r = CommandResponse {
            status: 200,
            message: String::new(),
            values: Vec::new(),
            pairs,
        };
        proof {
            assert(r@ =~~= spec_resp_pairs(seq_pair_view(r.pairs@)));
        }
        r
    }
}

impl vstd::std_specs::convert::FromSpecImpl<Vec<Kvpair>> for CommandResponse {
    open spec fn obeys_from_spec() -> bool {
        false
    }

    open spec fn from_spec(pairs: Vec<Kvpair>) -> Self {
        CommandResponse { status: 200, message: arbitrary(), values: arbitrary(), pairs }
    }
}

impl From<KvError> for CommandResponse {
    /// An error becomes a response carrying its status code and text:
    /// 404 for an absent entity, 400 for a malformed request, 500 otherwise.
    fn from(e: KvError) -> (r: Self)
        ensures
            r@ == spec_resp_error(e@),
    {
        let status = e.status();
        let message = e.message();
        let r = CommandResponse {
            status,
            message,
            values: Vec::new(),
            pairs: Vec::new(),
        };
        proof {
            assert(r@ =~~= spec_resp_error(e@));
        }
        r
    }
}

impl vstd::std_specs::convert::FromSpecImpl<KvError> for CommandResponse {
    open spec fn obeys_from_spec() -> bool {
        false
    }

    open spec fn from_spec(e: KvError) -> Self {
        CommandResponse { status: spec_error_status(e@), message: arbitrary(), values: arbitrary(), pairs: arbitrary() }
    }
}


impl Default for CommandResponse {
    /// The default response: status 0 and nothing else; the dispatcher's
    /// placeholder for requests it does not handle.
    fn default() -> (r: Self)
        ensures
            r@ == (RespV {
                status: 0,
                message: Seq::<char>::empty(),
                values: Seq::<ValueV>::empty(),
                pairs: Seq::<KvpairV>::empty(),
            }),
    {
        let r = CommandResponse {
            status: 0,
            message: String::new(),
            values: Vec::new(),
            pairs: Vec::new(),
        };
        proof {
            assert(seq_value_view(r.values@) =~= Seq::<ValueV>::empty());
            assert(seq_pair_view(r.pairs@) =~= Seq::<KvpairV>::empty());
        }
        r
    }
}

} // verus!
