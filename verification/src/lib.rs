//! A key-value service core: typed command messages, a verified wire codec
//! with length-prefixed optionally compressed frames, in-memory table storage,
//! a command dispatcher, and a topic-based publish/subscribe broadcaster.

pub mod buffer;
pub mod codec;
pub mod error;
pub mod frame;
pub mod laws;
pub mod msg;
pub mod parse;
pub mod pb;
pub mod service;
pub mod storage;
pub mod topic;
pub mod value;
pub mod wire;

pub use buffer::{MessageReader, WriteBuffer};
pub use error::{KvError, KvErrorV, spec_error_message, spec_error_status};
pub use frame::{
    COMPRESSION_LIMIT, FrameCoder, MAX_FRAME, decode_frame, encode_frame, spec_dec_frame,
    spec_decode_frame_msg, spec_frame,
};
pub use laws::{
    lemma_distinct_key_writes_commute, lemma_frame_round_trip_uncompressed,
    lemma_publish_all_delivers, lemma_publish_preserves_distinct, lemma_publish_sub_of,
    lemma_storage_round, lemma_unsubscribed_sees_nothing, spec_publish_all, sub_of,
};
pub use parse::{KvPair, parse_kv_pair};
pub use service::{
    CommandService, NoopHook, Notify, NotifyMut, Service, ServiceInner, ServiceReply,
    assert_res_error, assert_res_ok, dispatch, dispatch_stream, spec_cmd_resp, spec_cmd_tbl,
    spec_is_pubsub, spec_req_resp, spec_req_tbl,
};
pub use storage::{MemTable, Storage, StorageIter, pairs_match};
pub use topic::{Broadcaster, CHANNEL_CAPACITY, SubV, Subscription, Topic, has_sub, spec_deliver,
    spec_distinct_ids, spec_publish, spec_sub_ack};
pub use msg::{
    CommandRequest, CommandResponse, Hdel, HdelV, Hexist, HexistV, Hget, HgetV, Hgetall, HgetallV,
    Hmdel, HmdelV, Hmexist, HmexistV, Hmget, HmgetV, Hmset, HmsetV, Hset, HsetV, Publish, PublishV,
    ReqV, RequestData, RequestDataV, RespV, Subscribe, SubscribeV, Unsubscribe, UnsubscribeV,
    request_debug, response_debug, seq_pair_view, seq_str_view, seq_value_view, spec_resp_error,
    spec_resp_ok, spec_resp_pairs, spec_resp_values,
};
pub use value::{Kvpair, KvpairV, Value, ValueV, ValueVariant, VariantV, value_debug};
