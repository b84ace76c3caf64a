//! The request to the embedding service: what text is sent, with which
//! authorisation, and how the service's answers become results or errors.

use vstd::prelude::*;
use vstd::string::StringExecFns;
use crate::indexer::storage::vector_views;
use crate::text::{chars_of, string_of, trim, trim_chars};

verus! {

/// The text sent for embedding: `text` trimmed; an error when nothing is left.
pub fn embedding_input(text: &str) -> (r: Result<String, String>)
    ensures
        trim(text@).len() == 0 ==> (r matches Err(m) && m@ == "文本内容为空"@),
        trim(text@).len() > 0 ==> (r matches Ok(s) && s@ == trim(text@)),
{
    let v = chars_of(text);
    let t = trim_chars(v.as_slice());
    if t.len() == 0 {
        Err(String::from_str("文本内容为空"))
    } else {
        Ok(string_of(t.as_slice()))
    }
}

/// The value of the `Authorization` header for `api_key`.
pub fn authorization_value(api_key: &str) -> (r: String)
    ensures
        r@ == "Bearer "@ + api_key@,
{
    let mut r = String::from_str("Bearer ");
    r.append(api_key);
    r
}

/// The error for a request that could not be sent or answered.
pub fn request_failure_message(detail: &str) -> (r: String)
    ensures
        r@ == "API 请求失败: "@ + detail@,
{
    let mut r = String::from_str("API 请求失败: ");
    r.append(detail);
    r
}

/// The error for an answer with an unsuccessful status.
pub fn api_error_message(status: &str, body: &str) -> (r: String)
    ensures
        r@ == "API 错误 "@ + status@ + ": "@ + body@,
{
    let mut r = String::from_str("API 错误 ");
    r.append(status);
    r.append(": ");
    r.append(body);
    r
}

/// The error for an answer that is not the expected JSON.
pub fn response_parse_failure_message(detail: &str) -> (r: String)
    ensures
        r@ == "解析响应失败: "@ + detail@,
{
    let mut r = String::from_str("解析响应失败: ");
    r.append(detail);
    r
}

/// The embedding an answer gives: the first of its vectors (components as
/// their bit patterns); an error when there is none.
pub fn first_embedding(data: Vec<Vec<u32>>) -> (r: Result<Vec<u32>, String>)
    ensures
        data@.len() == 0 ==> (r matches Err(m) && m@ == "响应中没有 embedding"@),
        data@.len() > 0 ==> (r matches Ok(v) && v@ == vector_views(data@)[0]),
{
    let mut data = data;
    if data.len() == 0 {
        Err(String::from_str("响应中没有 embedding"))
    } else {
        Ok(data.swap_remove(0))
    }
}

} // verus!
