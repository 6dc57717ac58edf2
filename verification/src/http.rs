//! The streaming read protocol: an initial read serves block 0 of an
//! asset with the standard headers, and — for a multi-block asset — a
//! continuation token naming the next block; each follow-up call serves
//! its block and advances the token by one, until the last block ends
//! the stream.  The sequence is strictly forward-only.

use vstd::prelude::*;
use vstd::string::{StringExecFns, StrSliceExecFns};
use vstd::utf8::encode_utf8;
use crate::state::State;
use crate::types::{CallbackFunc, CreateStrategyArgs, HeaderField, HttpRequest, HttpResponse,
    Principal, StreamingCallbackHttpResponse, StreamingCallbackToken, StreamingStrategy};
use crate::url::spec_parse_asset_id;

verus! {

/// The fixed body of a failed lookup.
pub open spec fn not_found_body() -> Seq<u8> {
    encode_utf8("Asset Not Found"@)
}

/// The continuation token that follows the given block, if any: the
/// protocol ends exactly when no block follows.
pub fn create_token(arg: CreateStrategyArgs) -> (r: Option<StreamingCallbackToken>)
    ensures
        match r {
            None => arg.chunk_index as int + 1 >= arg.data_chunks_size as int,
            Some(t) => {
                &&& arg.chunk_index as int + 1 < arg.data_chunks_size as int
                &&& t.asset_id == arg.asset_id
                &&& t.chunk_index == arg.chunk_index + 1
                &&& t.content_encoding@ == "gzip"@
            },
        },
{
    if (arg.chunk_index as u64) + 1 >= arg.data_chunks_size as u64 {
        return None;
    }
    Some(
        StreamingCallbackToken {
            asset_id: arg.asset_id,
            chunk_index: arg.chunk_index + 1,
            content_encoding: String::from_str("gzip"),
        },
    )
}

/// The streaming strategy that follows the given block, if any: its
/// token, and the callback naming this instance's continuation method.
pub fn create_strategy(arg: CreateStrategyArgs, instance: &Principal) -> (r: Option<
    StreamingStrategy,
>)
    ensures
        match r {
            None => arg.chunk_index as int + 1 >= arg.data_chunks_size as int,
            Some(s) => {
                &&& arg.chunk_index as int + 1 < arg.data_chunks_size as int
                &&& match s {
                    StreamingStrategy::Callback { token, callback } => {
                        &&& token.asset_id == arg.asset_id
                        &&& token.chunk_index == arg.chunk_index + 1
                        &&& token.content_encoding@ == "gzip"@
                        &&& callback.principal@ == instance@
                        &&& callback.method@ == "http_request_streaming_callback"@
                    },
                }
            },
        },
{
    match create_token(arg) {
        None => None,
        Some(token) => Some(
            StreamingStrategy::Callback {
                token,
                callback: CallbackFunc {
                    principal: instance.clone(),
                    method: String::from_str("http_request_streaming_callback"),
                },
            },
        ),
    }
}

impl State {
    /// Serves the initial read: status 404 with a fixed body where no
    /// asset matches the path's identifier; otherwise status 200, block
    /// 0 as the body, the standard headers, and — for a multi-block
    /// asset — the continuation naming block 1.  A path that names no
    /// decimal identifier, or an asset with no blocks at all, is a
    /// protocol violation and is excluded outright.
    pub fn http_request(&self, request: &HttpRequest, instance: &Principal) -> (r: HttpResponse)
        requires
            self.wf(),
            spec_parse_asset_id(request.url@) is Some,
            self.assets_map().contains_key(spec_parse_asset_id(request.url@).unwrap())
                ==> self.assets_map()[spec_parse_asset_id(request.url@).unwrap()].chunk_size > 0,
        ensures
            ({
                let aid = spec_parse_asset_id(request.url@).unwrap();
                if !self.assets_map().contains_key(aid) {
                    &&& r.status_code == 404
                    &&& r.body@ == not_found_body()
                    &&& r.headers@.len() == 0
                    &&& r.streaming_strategy is None
                } else {
                    let asset = self.assets_map()[aid];
                    &&& r.status_code == 200
                    &&& r.body@ == self.blocks()[(aid, 0u32)]
                    &&& r.headers@.len() == 4
                    &&& r.headers@[0].0@ == "Content-Type"@ && r.headers@[0].1@
                        == asset.content_type
                    &&& r.headers@[1].0@ == "accept-ranges"@ && r.headers@[1].1@ == "bytes"@
                    &&& r.headers@[2].0@ == "Content-Disposition"@ && r.headers@[2].1@
                        == "attachment; filename="@ + asset.filename
                    &&& r.headers@[3].0@ == "cache-control"@ && r.headers@[3].1@
                        == "private, max-age=0"@
                    &&& match r.streaming_strategy {
                        None => 1 >= asset.chunk_size as int,
                        Some(s) => 1 < asset.chunk_size as int && match s {
                            StreamingStrategy::Callback { token, callback } => {
                                &&& token.asset_id == aid
                                &&& token.chunk_index == 1
                                &&& token.content_encoding@ == "gzip"@
                                &&& callback.principal@ == instance@
                                &&& callback.method@ == "http_request_streaming_callback"@
                            },
                        },
                    }
                }
            }),
    {
        let asset_id = crate::url::get_asset_id(&request.url);
        match self.assets.get(asset_id) {
            None => HttpResponse {
                body: "Asset Not Found".as_bytes_vec(),
                status_code: 404,
                headers: Vec::new(),
                streaming_strategy: None,
            },
            Some(bytes) => {
                proof {
                    assert(self.asset_tbl().contains_key(asset_id));
                    assert(self.asset_entry_wf(asset_id));
                }
                let asset = crate::types::Asset::from_bytes(bytes.as_slice()).unwrap();
                proof {
                    assert(asset@ == self.assets_map()[asset_id]);
                    assert(self.blocks().contains_key((asset_id, 0u32)));
                }
                let block = self.contents.get((asset_id, 0)).unwrap();
                let mut disposition = String::from_str("attachment; filename=");
                disposition.append(asset.filename.as_str());
                let mut headers: Vec<HeaderField> = Vec::new();
                headers.push(
                    HeaderField(String::from_str("Content-Type"), asset.content_type.clone()),
                );
                headers.push(
                    HeaderField(String::from_str("accept-ranges"), String::from_str("bytes")),
                );
                headers.push(HeaderField(String::from_str("Content-Disposition"), disposition));
                headers.push(
                    HeaderField(
                        String::from_str("cache-control"),
                        String::from_str("private, max-age=0"),
                    ),
                );
                let strategy = create_strategy(
                    CreateStrategyArgs {
                        asset_id,
                        chunk_index: 0,
                        data_chunks_size: asset.chunk_size,
                    },
                    instance,
                );
                HttpResponse {
                    body: block,
                    status_code: 200,
                    headers,
                    streaming_strategy: strategy,
                }
            },
        }
    }

    /// Serves one continuation call: the token's block as the body, and
    /// the next token unless that block was the last.  A token whose
    /// asset has vanished, or whose index lies past the asset's blocks,
    /// is a protocol violation and is excluded outright.
    pub fn http_request_streaming_callback(&self, token_arg: &StreamingCallbackToken) -> (r:
        StreamingCallbackHttpResponse)
        requires
            self.wf(),
            self.assets_map().contains_key(token_arg.asset_id),
            token_arg.chunk_index < self.assets_map()[token_arg.asset_id].chunk_size,
        ensures
            r.body@ == self.blocks()[(token_arg.asset_id, token_arg.chunk_index)],
            ({
                let chunk_size = self.assets_map()[token_arg.asset_id].chunk_size;
                match r.token {
                    None => token_arg.chunk_index as int + 1 >= chunk_size as int,
                    Some(t) => {
                        &&& token_arg.chunk_index as int + 1 < chunk_size as int
                        &&& t.asset_id == token_arg.asset_id
                        &&& t.chunk_index == token_arg.chunk_index + 1
                        &&& t.content_encoding@ == "gzip"@
                    },
                }
            }),
    {
        proof {
            assert(self.asset_tbl().contains_key(token_arg.asset_id));
            assert(self.asset_entry_wf(token_arg.asset_id));
        }
        let bytes = self.assets.get(token_arg.asset_id).unwrap();
        let asset = crate::types::Asset::from_bytes(bytes.as_slice()).unwrap();
        proof {
            assert(asset@ == self.assets_map()[token_arg.asset_id]);
            assert(self.blocks().contains_key((token_arg.asset_id, token_arg.chunk_index)));
        }
        let token = create_token(
            CreateStrategyArgs {
                asset_id: token_arg.asset_id,
                chunk_index: token_arg.chunk_index,
                data_chunks_size: asset.chunk_size,
            },
        );
        let body = self.contents.get((token_arg.asset_id, token_arg.chunk_index)).unwrap();
        StreamingCallbackHttpResponse { body, token }
    }
}

/// The running service's version.
pub fn version() -> (r: u64)
    ensures
        r == 1,
{
    1
}

} // verus!
