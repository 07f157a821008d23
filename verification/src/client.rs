//! Translation client: builds the chat-completion request for one batch,
//! decodes the streaming or single-shot response, and maps the returned
//! translations back onto the batch's original lines. The HTTP transport
//! itself lives outside; JSON decoding is delegated to `serde_json` behind
//! trusted declarations, everything around it is verified.

use crate::buffer::join_nl;
use crate::config::TranslatorConfig;
use crate::lines::{has_sep, line_id, line_id_raw, line_rest, sep_seq, spec_trim, find_sep,
    format_line, split_line, trim_str};
use vstd::prelude::*;

verus! {

/// `s` with every trailing `/` removed, as the endpoint URL is normalized.
pub open spec fn strip_slashes(s: Seq<char>) -> Seq<char>
    decreases s.len(),
{
    if s.len() > 0 && s.last() == '/' {
        strip_slashes(s.drop_last())
    } else {
        s
    }
}

proof fn lemma_strip_slashes_at(s: Seq<char>, b: int)
    requires
        0 <= b <= s.len(),
        forall|j: int| b <= j < s.len() ==> s[j] == '/',
        b > 0 ==> s[b - 1] != '/',
    ensures
        strip_slashes(s) == s.subrange(0, b),
    decreases s.len() - b,
{
    if b == s.len() {
        assert(s.subrange(0, s.len() as int) =~= s);
    } else {
        let r = s.drop_last();
        lemma_strip_slashes_at(r, b);
        assert(r.subrange(0, b) =~= s.subrange(0, b));
    }
}

/// The request URL: the configured base with trailing slashes removed,
/// then the chat-completions path.
pub fn build_url(base_url: &str) -> (r: String)
    ensures
        r@ == strip_slashes(base_url@) + "/chat/completions"@,
{
    let n = base_url.unicode_len();
    let mut b: usize = n;
    while b > 0 && base_url.get_char(b - 1) == '/'
        invariant
            b <= n,
            n == base_url@.len(),
            forall|j: int| b <= j < n ==> base_url@[j] == '/',
        decreases b,
    {
        b = b - 1;
    }
    proof {
        lemma_strip_slashes_at(base_url@, b as int);
    }
    let mut out = base_url.substring_char(0, b).to_owned();
    out.append("/chat/completions");
    out
}

/// The user-message text for one batch: the batch lines joined by newlines,
/// followed by the output-format reminder.
pub fn build_prompt(batch_lines: &Vec<String>) -> (r: String)
    ensures
        r@ == join_nl(batch_lines@) + "\n\nREMINDER: Format 'ID:::TranslatedText'."@,
{
    let mut out = String::new();
    let mut i: usize = 0;
    proof {
        reveal_strlit("\n");
        assert(batch_lines@.take(0) =~= Seq::<String>::empty());
    }
    while i < batch_lines.len()
        invariant
            i <= batch_lines@.len(),
            out@ == join_nl(batch_lines@.take(i as int)),
        decreases batch_lines@.len() - i,
    {
        if i > 0 {
            out.append("\n");
        }
        out.append(batch_lines[i].as_str());
        proof {
            reveal_strlit("\n");
            let t = batch_lines@.take(i as int);
            crate::buffer::lemma_join_nl_snoc(t, batch_lines@[i as int]);
            assert(batch_lines@.take(i as int + 1) =~= t.push(batch_lines@[i as int]));
            if i > 0 {
                assert(out@ =~= join_nl(t) + seq!['\n'] + batch_lines@[i as int]@);
            }
        }
        i = i + 1;
    }
    proof {
        assert(batch_lines@.take(batch_lines@.len() as int) =~= batch_lines@);
    }
    out.append("\n\nREMINDER: Format 'ID:::TranslatedText'.");
    out
}

/// The outgoing chat-completion request for one batch, as a structured
/// record: a system message holding the configured prompt, a user message
/// holding the batch text, the stream flag, and the optional integral
/// sampling parameters. An absent optional field is omitted from the
/// serialized payload, never sent as null; the shell serializes this record
/// and performs the POST with bearer authorization.
pub struct ChatRequest {
    pub url: String,
    pub api_key: String,
    pub model: String,
    pub system_prompt: String,
    pub user_prompt: String,
    pub stream: bool,
    pub max_tokens: Option<u32>,
    pub top_k: Option<i32>,
}

/// Assembles the request for one batch from the job configuration.
pub fn build_request(config: &TranslatorConfig, batch_lines: &Vec<String>) -> (r: ChatRequest)
    ensures
        r.url@ == strip_slashes(config.base_url@) + "/chat/completions"@,
        r.api_key@ == config.api_key@,
        r.model@ == config.model@,
        r.system_prompt@ == config.system_prompt@,
        r.user_prompt@ == join_nl(batch_lines@) + "\n\nREMINDER: Format 'ID:::TranslatedText'."@,
        r.stream == config.stream,
        r.max_tokens == config.max_tokens,
        r.top_k == config.top_k,
{
    ChatRequest {
        url: build_url(config.base_url.as_str()),
        api_key: config.api_key.clone(),
        model: config.model.clone(),
        system_prompt: config.system_prompt.clone(),
        user_prompt: build_prompt(batch_lines),
        stream: config.stream,
        max_tokens: config.max_tokens,
        top_k: config.top_k,
    }
}

/// The `choices[0].delta.content` string of a streaming event frame's JSON
/// text, if the text is valid JSON and carries one; decided by the text
/// alone.
pub uninterp spec fn json_delta_content(frame: Seq<char>) -> Option<Seq<char>>;

/// The `choices[0].message.content` string of a non-streaming response
/// body's JSON text, if the text is valid JSON and carries one; decided by
/// the text alone.
pub uninterp spec fn json_message_content(body: Seq<char>) -> Option<Seq<char>>;

/// Whether the text is a valid JSON document (whether `serde_json::from_str`
/// accepts it); decided by the text alone.
pub uninterp spec fn json_is_valid(text: Seq<char>) -> bool;

/// Relies on `serde_json::from_str` and `serde_json::Value`'s `get`/`as_str`:
/// what `choices[0].delta.content` of a JSON text holds is a function of the
/// text alone, and absent exactly when the text is not JSON or has no such
/// string field.
#[verifier::external_body]
fn extract_delta_content(data: &str) -> (r: Option<String>)
    ensures
        match r {
            Some(s) => json_delta_content(data@) == Some(s@),
            None => json_delta_content(data@) is None,
        },
{
    let v: serde_json::Value = match serde_json::from_str(data) {
        Ok(v) => v,
        Err(_) => return None,
    };
    v["choices"][0]["delta"]["content"].as_str().map(|s| s.to_string())
}

/// Relies on `serde_json::from_str` and `serde_json::Value`'s `get`/`as_str`:
/// whether the text is JSON at all, and what `choices[0].message.content`
/// holds when it is, are each a function of the text alone; the error case
/// is exactly a text that is not valid JSON.
#[verifier::external_body]
fn extract_message_content(body: &str) -> (r: Result<Option<String>, ()>)
    ensures
        match r {
            Ok(Some(s)) => json_is_valid(body@) && json_message_content(body@) == Some(s@),
            Ok(None) => json_is_valid(body@) && json_message_content(body@) is None,
            Err(_) => !json_is_valid(body@),
        },
{
    let v: serde_json::Value = match serde_json::from_str(body) {
        Ok(v) => v,
        Err(_) => return Err(()),
    };
    Ok(v["choices"][0]["message"]["content"].as_str().map(|s| s.to_string()))
}

/// Outcome of decoding a non-streaming response body.
#[derive(Debug)]
pub enum SingleResponse {
    /// The body carried `choices[0].message.content`: the full translated
    /// text.
    Content(String),
    /// Valid JSON without that field: the attempt proceeds with empty
    /// content, so every batch line passes through untranslated.
    NoContent,
    /// Not valid JSON: a decode error. The attempt fails as a whole — no
    /// line is translated or mutated — and the caller retries the same
    /// batch.
    Invalid,
}

/// Decodes a non-streaming response body. A body that is not valid JSON is
/// a decode error, distinct from a well-formed response that merely lacks
/// the content field.
pub fn parse_single_response(body: &str) -> (r: SingleResponse)
    ensures
        match r {
            SingleResponse::Content(s) => json_is_valid(body@) && json_message_content(body@)
                == Some(s@),
            SingleResponse::NoContent => json_is_valid(body@) && json_message_content(body@)
                is None,
            SingleResponse::Invalid => !json_is_valid(body@),
        },
{
    match extract_message_content(body) {
        Ok(Some(s)) => SingleResponse::Content(s),
        Ok(None) => SingleResponse::NoContent,
        Err(_) => SingleResponse::Invalid,
    }
}

/// The streaming event-frame prefix, `data: `.
pub open spec fn data_prefix() -> Seq<char> {
    seq!['d', 'a', 't', 'a', ':', ' ']
}

/// The terminal streaming frame's payload, `[DONE]`.
pub open spec fn done_marker() -> Seq<char> {
    seq!['[', 'D', 'O', 'N', 'E', ']']
}

/// The JSON payload of an event-frame line: what follows `data: ` after the
/// line is trimmed; nothing for a line without that prefix.
pub open spec fn frame_payload(line: Seq<char>) -> Option<Seq<char>> {
    let t = spec_trim(line);
    if t.len() >= 6 && t.subrange(0, 6) == data_prefix() {
        Some(t.subrange(6, t.len() as int))
    } else {
        None
    }
}

/// Whether a line is the terminal `data: [DONE]` frame.
pub open spec fn frame_is_done(line: Seq<char>) -> bool {
    frame_payload(line) == Some(done_marker())
}

/// The content fragment one event-frame line contributes: the payload's
/// delta content, and nothing for the terminal frame or a non-frame line.
pub open spec fn frame_delta(line: Seq<char>) -> Option<Seq<char>> {
    match frame_payload(line) {
        Some(p) => if p == done_marker() {
            None
        } else {
            json_delta_content(p)
        },
        None => None,
    }
}

/// What one decoded event-frame line means for the stream.
pub enum FrameOut {
    /// A content fragment to accumulate and forward.
    Delta(String),
    /// The terminal frame: the rest of this chunk's lines are discarded.
    Done,
    /// Nothing to take from this line.
    Nothing,
}

/// Decodes one complete event-frame line.
pub fn process_frame(line: &str) -> (r: FrameOut)
    ensures
        (r is Done) == frame_is_done(line@),
        match r {
            FrameOut::Delta(s) => frame_delta(line@) == Some(s@),
            FrameOut::Done => true,
            FrameOut::Nothing => frame_delta(line@) is None,
        },
{
    let t = trim_str(line);
    let ts = t.as_str();
    let n = ts.unicode_len();
    if n < 6 {
        return FrameOut::Nothing;
    }
    if !(ts.get_char(0) == 'd' && ts.get_char(1) == 'a' && ts.get_char(2) == 't' && ts.get_char(3)
        == 'a' && ts.get_char(4) == ':' && ts.get_char(5) == ' ') {
        proof {
            assert(t@.subrange(0, 6) != data_prefix());
        }
        return FrameOut::Nothing;
    }
    proof {
        assert(t@.subrange(0, 6) =~= data_prefix());
    }
    let payload = ts.substring_char(6, n);
    let m = n - 6;
    proof {
        assert(payload@ =~= spec_trim(line@).subrange(6, spec_trim(line@).len() as int));
    }
    if m == 6 && payload.get_char(0) == '[' && payload.get_char(1) == 'D' && payload.get_char(2)
        == 'O' && payload.get_char(3) == 'N' && payload.get_char(4) == 'E' && payload.get_char(5)
        == ']' {
        proof {
            assert(payload@ =~= done_marker());
        }
        return FrameOut::Done;
    }
    proof {
        if payload@.len() == 6 {
            assert(payload@ != done_marker()) by {
                if payload@ == done_marker() {
                    assert(payload@[0] == '[' && payload@[1] == 'D' && payload@[2] == 'O'
                        && payload@[3] == 'N' && payload@[4] == 'E' && payload@[5] == ']');
                }
            }
        }
    }
    match extract_delta_content(payload) {
        Some(s) => FrameOut::Delta(s),
        None => FrameOut::Nothing,
    }
}


/// A newline byte occurs in `buf`.
pub open spec fn has_nl(buf: Seq<u8>) -> bool {
    exists|i: int| 0 <= i < buf.len() && buf[i] == 10
}

/// Position of the first newline byte in `buf`; `buf.len()` when there is
/// none.
pub open spec fn first_nl(buf: Seq<u8>) -> int
    decreases buf.len(),
{
    if buf.len() == 0 {
        0
    } else if buf[0] == 10 {
        0
    } else {
        1 + first_nl(buf.drop_first())
    }
}

pub proof fn lemma_first_nl_props(buf: Seq<u8>)
    ensures
        0 <= first_nl(buf) <= buf.len(),
        first_nl(buf) < buf.len() ==> buf[first_nl(buf)] == 10,
        forall|j: int| 0 <= j < first_nl(buf) ==> buf[j] != 10,
        has_nl(buf) <==> first_nl(buf) < buf.len(),
    decreases buf.len(),
{
    if buf.len() == 0 {
    } else if buf[0] == 10 {
    } else {
        let r = buf.drop_first();
        lemma_first_nl_props(r);
        assert forall|j: int| 0 <= j < first_nl(buf) implies buf[j] != 10 by {
            if j > 0 {
                assert(r[j - 1] != 10);
            }
        }
        if has_nl(buf) {
            let i = choose|i: int| 0 <= i < buf.len() && buf[i] == 10;
            assert(i > 0);
            assert(r[i - 1] == 10);
            assert(has_nl(r));
        }
        if has_nl(r) {
            let i = choose|i: int| 0 <= i < r.len() && r[i] == 10;
            assert(buf[i + 1] == 10);
        }
        if first_nl(buf) < buf.len() {
            assert(r[first_nl(r)] == 10);
        }
    }
}

/// The first-newline position is pinned by any witness of "newline here,
/// none earlier".
pub proof fn lemma_first_nl_is(buf: Seq<u8>, k: int)
    requires
        0 <= k < buf.len(),
        buf[k] == 10,
        forall|j: int| 0 <= j < k ==> buf[j] != 10,
    ensures
        first_nl(buf) == k,
{
    lemma_first_nl_props(buf);
    if first_nl(buf) < k {
        assert(buf[first_nl(buf)] != 10);
    }
    if first_nl(buf) > k {
        assert(buf[k] != 10);
    }
}

/// The residue after the last newline byte: what the decoder keeps buffered
/// after discarding all complete lines.
pub open spec fn after_last_nl(buf: Seq<u8>) -> Seq<u8>
    decreases buf.len(),
{
    if buf.len() == 0 {
        buf
    } else if buf.last() == 10 {
        Seq::empty()
    } else {
        after_last_nl(buf.drop_last()).push(buf.last())
    }
}

pub proof fn lemma_after_last_nl_no_nl(buf: Seq<u8>)
    requires
        !has_nl(buf),
    ensures
        after_last_nl(buf) == buf,
    decreases buf.len(),
{
    if buf.len() > 0 {
        assert(buf.last() != 10) by {
            assert(0 <= buf.len() - 1 < buf.len());
        }
        let r = buf.drop_last();
        assert(!has_nl(r)) by {
            if has_nl(r) {
                let i = choose|i: int| 0 <= i < r.len() && r[i] == 10;
                assert(buf[i] == 10);
            }
        }
        lemma_after_last_nl_no_nl(r);
        assert(r.push(buf.last()) =~= buf);
    }
}

/// Dropping one complete line from the front does not change the residue
/// after the last newline.
pub proof fn lemma_after_last_nl_through(pre: Seq<u8>, rest: Seq<u8>)
    ensures
        after_last_nl(pre + seq![10u8] + rest) == after_last_nl(rest),
    decreases rest.len(),
{
    let buf = pre + seq![10u8] + rest;
    if rest.len() == 0 {
        assert(buf.last() == 10);
        assert(after_last_nl(buf) == Seq::<u8>::empty());
        assert(after_last_nl(rest) =~= Seq::<u8>::empty());
    } else {
        assert(buf.last() == rest.last());
        if rest.last() == 10 {
        } else {
            assert(buf.drop_last() =~= pre + seq![10u8] + rest.drop_last());
            lemma_after_last_nl_through(pre, rest.drop_last());
        }
    }
}

/// The residue after the last newline holds no newline.
pub proof fn lemma_after_last_nl_free(buf: Seq<u8>)
    ensures
        !has_nl(after_last_nl(buf)),
    decreases buf.len(),
{
    if buf.len() == 0 {
    } else if buf.last() == 10 {
    } else {
        let r = buf.drop_last();
        lemma_after_last_nl_free(r);
        let a = after_last_nl(r).push(buf.last());
        assert(!has_nl(a)) by {
            if has_nl(a) {
                let i = choose|i: int| 0 <= i < a.len() && a[i] == 10;
                if i < a.len() - 1 {
                    assert(after_last_nl(r)[i] == 10);
                    assert(has_nl(after_last_nl(r)));
                }
            }
        }
    }
}

/// The text that `String::from_utf8_lossy` decodes from these bytes;
/// decided by the bytes alone.
pub uninterp spec fn utf8_lossy(bytes: Seq<u8>) -> Seq<char>;

/// Relies on `String::from_utf8_lossy`: the decoded text is a function of
/// the bytes alone.
#[verifier::external_body]
fn bytes_to_string_lossy(bytes: &Vec<u8>) -> (r: String)
    ensures
        r@ == utf8_lossy(bytes@),
{
    String::from_utf8_lossy(bytes.as_slice()).into_owned()
}

/// What one `feed` of raw stream bytes yields: the bytes left buffered
/// (a partial trailing line), the accumulated content, and the fragments
/// extracted in order.
pub struct FeedOutcome {
    pub residual: Seq<u8>,
    pub content: Seq<char>,
    pub frags: Seq<Seq<char>>,
}

/// The decoder's step over buffered bytes: split off each complete line in
/// turn, decode it as an event frame, and accumulate its content fragment;
/// on the terminal frame, discard the rest of the complete lines. The bytes
/// after the last newline stay buffered.
pub open spec fn spec_feed(buf: Seq<u8>, content: Seq<char>) -> FeedOutcome
    decreases buf.len(),
{
    if !has_nl(buf) {
        FeedOutcome { residual: buf, content, frags: Seq::empty() }
    } else {
        let i = first_nl(buf);
        if 0 <= i < buf.len() {
            let line = utf8_lossy(buf.subrange(0, i));
            let rest = buf.subrange(i + 1, buf.len() as int);
            if frame_is_done(line) {
                FeedOutcome { residual: after_last_nl(rest), content, frags: Seq::empty() }
            } else {
                match frame_delta(line) {
                    Some(d) => {
                        let sub = spec_feed(rest, content + d);
                        FeedOutcome {
                            residual: sub.residual,
                            content: sub.content,
                            frags: seq![d] + sub.frags,
                        }
                    },
                    None => spec_feed(rest, content),
                }
            }
        } else {
            FeedOutcome { residual: buf, content, frags: Seq::empty() }
        }
    }
}

/// Splits off the first complete (newline-terminated) line, without its
/// newline; leaves a buffer without complete lines untouched.
fn pop_first_line(buf: &mut Vec<u8>) -> (r: Option<Vec<u8>>)
    ensures
        match r {
            Some(line) => {
                &&& has_nl(old(buf)@)
                &&& line@ == old(buf)@.subrange(0, first_nl(old(buf)@))
                &&& final(buf)@ == old(buf)@.subrange(
                    first_nl(old(buf)@) + 1,
                    old(buf)@.len() as int,
                )
            },
            None => final(buf)@ == old(buf)@ && !has_nl(old(buf)@),
        },
{
    let n = buf.len();
    let mut i: usize = 0;
    while i < n && *buf.get(i).unwrap() != 10
        invariant
            i <= n,
            n == buf@.len(),
            buf@ == old(buf)@,
            forall|j: int| 0 <= j < i ==> buf@[j] != 10,
        decreases n - i,
    {
        i = i + 1;
    }
    if i == n {
        proof {
            if has_nl(buf@) {
                let j = choose|j: int| 0 <= j < buf@.len() && buf@[j] == 10;
                assert(buf@[j] != 10);
            }
        }
        return None;
    }
    proof {
        lemma_first_nl_is(buf@, i as int);
    }
    let mut line: Vec<u8> = Vec::new();
    let mut k: usize = 0;
    while k < i
        invariant
            k <= i < n,
            n == buf@.len(),
            buf@ == old(buf)@,
            line@ == buf@.subrange(0, k as int),
        decreases i - k,
    {
        line.push(*buf.get(k).unwrap());
        proof {
            assert(line@ =~= buf@.subrange(0, k as int + 1));
        }
        k = k + 1;
    }
    let mut rest: Vec<u8> = Vec::new();
    let mut k2: usize = i + 1;
    while k2 < n
        invariant
            i + 1 <= k2 <= n,
            n == buf@.len(),
            buf@ == old(buf)@,
            rest@ == buf@.subrange(i as int + 1, k2 as int),
        decreases n - k2,
    {
        rest.push(*buf.get(k2).unwrap());
        proof {
            assert(rest@ =~= buf@.subrange(i as int + 1, k2 as int + 1));
        }
        k2 = k2 + 1;
    }
    proof {
        assert(rest@ =~= buf@.subrange(i as int + 1, n as int));
    }
    *buf = rest;
    Some(line)
}

/// Incremental decoder for the streaming response body: raw bytes go in,
/// complete `data:` frames are decoded as they become available, their
/// content accumulates, and each fragment is handed back so it can be
/// forwarded live to the progress reporter.
pub struct StreamDecoder {
    pub buf: Vec<u8>,
    pub content: String,
}

impl StreamDecoder {
    /// The buffer never holds a complete line between feeds.
    pub open spec fn wf(&self) -> bool {
        !has_nl(self.buf@)
    }

    pub fn new() -> (r: Self)
        ensures
            r.wf(),
            r.buf@ == Seq::<u8>::empty(),
            r.content@ == Seq::<char>::empty(),
    {
        StreamDecoder { buf: Vec::new(), content: String::new() }
    }

    /// Feeds one chunk of raw response bytes: decodes every line completed
    /// so far (buffered residue plus this chunk) and returns the content
    /// fragments extracted, in order, for live forwarding.
    pub fn feed(&mut self, chunk: &Vec<u8>) -> (frags: Vec<String>)
        requires
            old(self).wf(),
        ensures
            ({
                let o = spec_feed(old(self).buf@ + chunk@, old(self).content@);
                &&& final(self).buf@ == o.residual
                &&& final(self).content@ == o.content
                &&& frags@.len() == o.frags.len()
                &&& forall|i: int| 0 <= i < frags@.len() ==> #[trigger] frags@[i]@ == o.frags[i]
                &&& final(self).wf()
            }),
    {
        let ghost total0 = old(self).buf@ + chunk@;
        let ghost content0 = old(self).content@;
        let mut t: usize = 0;
        while t < chunk.len()
            invariant
                t <= chunk@.len(),
                self.buf@ == old(self).buf@ + chunk@.take(t as int),
                self.content@ == content0,
            decreases chunk@.len() - t,
        {
            self.buf.push(*chunk.get(t).unwrap());
            proof {
                assert(self.buf@ =~= old(self).buf@ + chunk@.take(t as int + 1));
            }
            t = t + 1;
        }
        proof {
            assert(chunk@.take(chunk@.len() as int) =~= chunk@);
            assert(self.buf@ == total0);
        }
        let mut frags: Vec<String> = Vec::new();
        loop
            invariant
                ({
                    let o_all = spec_feed(total0, content0);
                    let o_now = spec_feed(self.buf@, self.content@);
                    &&& o_all.residual == o_now.residual
                    &&& o_all.content == o_now.content
                    &&& o_all.frags == frags@.map_values(|s: String| s@) + o_now.frags
                }),
            ensures
                ({
                    let o_all = spec_feed(total0, content0);
                    &&& self.buf@ == o_all.residual
                    &&& self.content@ == o_all.content
                    &&& frags@.len() == o_all.frags.len()
                    &&& forall|i: int|
                        0 <= i < frags@.len() ==> #[trigger] frags@[i]@ == o_all.frags[i]
                    &&& !has_nl(self.buf@)
                }),
            decreases self.buf@.len(),
        {
            let ghost buf_before = self.buf@;
            let ghost content_before = self.content@;
            let ghost o_now = spec_feed(buf_before, content_before);
            match pop_first_line(&mut self.buf) {
                None => {
                    proof {
                        let o_all = spec_feed(total0, content0);
                        assert(o_now.residual == buf_before);
                        assert(o_now.frags =~= Seq::<Seq<char>>::empty());
                        assert(o_all.frags =~= frags@.map_values(|s: String| s@));
                        assert forall|i: int| 0 <= i < frags@.len() implies #[trigger] frags@[i]@
                            == o_all.frags[i] by {
                            assert(o_all.frags[i] == frags@.map_values(|s: String| s@)[i]);
                        }
                    }
                    break ;
                },
                Some(line_bytes) => {
                    proof {
                        lemma_first_nl_props(buf_before);
                    }
                    let line = bytes_to_string_lossy(&line_bytes);
                    let ghost i = first_nl(buf_before);
                    let ghost rest = buf_before.subrange(i + 1, buf_before.len() as int);
                    match process_frame(line.as_str()) {
                        FrameOut::Done => {
                            let ghost resid = after_last_nl(rest);
                            proof {
                                assert(o_now.residual == resid);
                                assert(o_now.content == content_before);
                                assert(o_now.frags =~= Seq::<Seq<char>>::empty());
                            }
                            loop
                                invariant
                                    after_last_nl(self.buf@) == resid,
                                    self.content@ == content_before,
                                ensures
                                    self.buf@ == resid,
                                    self.content@ == content_before,
                                    !has_nl(self.buf@),
                                decreases self.buf@.len(),
                            {
                                let ghost b2 = self.buf@;
                                match pop_first_line(&mut self.buf) {
                                    None => {
                                        proof {
                                            lemma_after_last_nl_no_nl(b2);
                                        }
                                        break ;
                                    },
                                    Some(_) => {
                                        proof {
                                            lemma_first_nl_props(b2);
                                            let i2 = first_nl(b2);
                                            assert(b2 =~= b2.subrange(0, i2) + seq![10u8]
                                                + b2.subrange(i2 + 1, b2.len() as int));
                                            lemma_after_last_nl_through(
                                                b2.subrange(0, i2),
                                                b2.subrange(i2 + 1, b2.len() as int),
                                            );
                                        }
                                    },
                                }
                            }
                            proof {
                                let o_all = spec_feed(total0, content0);
                                assert(o_all.frags =~= frags@.map_values(|s: String| s@));
                                assert forall|q: int|
                                    0 <= q < frags@.len() implies #[trigger] frags@[q]@
                                    == o_all.frags[q] by {
                                    assert(o_all.frags[q] == frags@.map_values(
                                        |s: String| s@,
                                    )[q]);
                                }
                            }
                            break ;
                        },
                        FrameOut::Delta(d) => {
                            proof {
                                assert(frame_delta(line@) == Some(d@));
                            }
                            self.content.append(d.as_str());
                            frags.push(d);
                            proof {
                                let o_next = spec_feed(rest, content_before + d@);
                                assert(o_now.residual == o_next.residual);
                                assert(o_now.content == o_next.content);
                                assert(o_now.frags == seq![d@] + o_next.frags);
                                assert(frags@.map_values(|s: String| s@)
                                    =~= frags@.drop_last().map_values(|s: String| s@).push(d@));
                                assert(spec_feed(total0, content0).frags =~= frags@.map_values(
                                    |s: String| s@,
                                ) + o_next.frags);
                            }
                        },
                        FrameOut::Nothing => {
                            proof {
                                assert(frame_delta(line@) is None);
                                assert(o_now == spec_feed(rest, content_before));
                            }
                        },
                    }
                },
            }
        }
        frags
    }

    /// Flushes the residual partial frame after the stream ends: a trailing
    /// line without newline is decoded the same way, its content appended;
    /// the buffer is left empty.
    pub fn finish(&mut self)
        requires
            old(self).wf(),
        ensures
            final(self).buf@ == Seq::<u8>::empty(),
            final(self).wf(),
            final(self).content@ == match frame_delta(utf8_lossy(old(self).buf@)) {
                Some(d) => old(self).content@ + d,
                None => old(self).content@,
            },
    {
        let line = bytes_to_string_lossy(&self.buf);
        match process_frame(line.as_str()) {
            FrameOut::Delta(d) => {
                self.content.append(d.as_str());
            },
            FrameOut::Done => {},
            FrameOut::Nothing => {},
        }
        self.buf = Vec::new();
    }
}


/// A newline occurs in the text.
pub open spec fn has_nl_c(s: Seq<char>) -> bool {
    exists|i: int| 0 <= i < s.len() && s[i] == '\n'
}

/// Position of the first newline in the text; `s.len()` when there is none.
pub open spec fn first_nl_c(s: Seq<char>) -> int
    decreases s.len(),
{
    if s.len() == 0 {
        0
    } else if s[0] == '\n' {
        0
    } else {
        1 + first_nl_c(s.drop_first())
    }
}

pub proof fn lemma_first_nl_c_props(s: Seq<char>)
    ensures
        0 <= first_nl_c(s) <= s.len(),
        first_nl_c(s) < s.len() ==> s[first_nl_c(s)] == '\n',
        forall|j: int| 0 <= j < first_nl_c(s) ==> s[j] != '\n',
        has_nl_c(s) <==> first_nl_c(s) < s.len(),
    decreases s.len(),
{
    if s.len() == 0 {
    } else if s[0] == '\n' {
    } else {
        let r = s.drop_first();
        lemma_first_nl_c_props(r);
        assert forall|j: int| 0 <= j < first_nl_c(s) implies s[j] != '\n' by {
            if j > 0 {
                assert(r[j - 1] != '\n');
            }
        }
        if has_nl_c(s) {
            let i = choose|i: int| 0 <= i < s.len() && s[i] == '\n';
            assert(i > 0);
            assert(r[i - 1] == '\n');
            assert(has_nl_c(r));
        }
        if has_nl_c(r) {
            let i = choose|i: int| 0 <= i < r.len() && r[i] == '\n';
            assert(s[i + 1] == '\n');
        }
        if first_nl_c(s) < s.len() {
            assert(r[first_nl_c(r)] == '\n');
        }
    }
}

pub proof fn lemma_first_nl_c_is(s: Seq<char>, k: int)
    requires
        0 <= k < s.len(),
        s[k] == '\n',
        forall|j: int| 0 <= j < k ==> s[j] != '\n',
    ensures
        first_nl_c(s) == k,
{
    lemma_first_nl_c_props(s);
    if first_nl_c(s) < k {
        assert(s[first_nl_c(s)] != '\n');
    }
    if first_nl_c(s) > k {
        assert(s[k] != '\n');
    }
}

/// The text split at every newline, keeping empty segments: one more
/// segment than there are newlines.
pub open spec fn split_nl(s: Seq<char>) -> Seq<Seq<char>>
    decreases s.len(),
{
    if !has_nl_c(s) {
        seq![s]
    } else {
        let i = first_nl_c(s);
        if 0 <= i < s.len() {
            seq![s.subrange(0, i)] + split_nl(s.subrange(i + 1, s.len() as int))
        } else {
            seq![s]
        }
    }
}

/// Splits the text at every newline.
pub fn split_lines_nl(s: &str) -> (r: Vec<String>)
    ensures
        r@.len() == split_nl(s@).len(),
        forall|i: int| 0 <= i < r@.len() ==> #[trigger] r@[i]@ == split_nl(s@)[i],
{
    let n = s.unicode_len();
    let mut parts: Vec<String> = Vec::new();
    let mut p: usize = 0;
    proof {
        assert(s@.subrange(0, n as int) =~= s@);
        assert(parts@.map_values(|x: String| x@) + split_nl(s@) =~= split_nl(s@));
    }
    loop
        invariant_except_break
            split_nl(s@) == parts@.map_values(|x: String| x@) + split_nl(
                s@.subrange(p as int, n as int),
            ),
        invariant
            p <= n,
            n == s@.len(),
        ensures
            parts@.len() == split_nl(s@).len(),
            forall|i: int|
                0 <= i < parts@.len() ==> #[trigger] parts@[i]@ == split_nl(s@)[i],
        decreases n - p + 1,
    {
        let ghost sfx = s@.subrange(p as int, n as int);
        let mut q: usize = p;
        while q < n && s.get_char(q) != '\n'
            invariant
                p <= q <= n,
                n == s@.len(),
                forall|j: int| p <= j < q ==> s@[j] != '\n',
            decreases n - q,
        {
            q = q + 1;
        }
        let piece = s.substring_char(p, q).to_owned();
        proof {
            assert(piece@ =~= sfx.subrange(0, q - p as int));
        }
        if q == n {
            proof {
                assert(!has_nl_c(sfx)) by {
                    if has_nl_c(sfx) {
                        let i = choose|i: int| 0 <= i < sfx.len() && sfx[i] == '\n';
                        assert(s@[p + i] != '\n');
                    }
                }
                assert(split_nl(sfx) == seq![sfx]);
                assert(piece@ =~= sfx);
                assert(parts@.push(piece).map_values(|x: String| x@) =~= parts@.map_values(
                    |x: String| x@,
                ).push(piece@));
                assert(parts@.map_values(|x: String| x@).push(sfx) =~= parts@.map_values(
                    |x: String| x@,
                ) + seq![sfx]);
            }
            parts.push(piece);
            proof {
                assert forall|i: int|
                    0 <= i < parts@.len() implies #[trigger] parts@[i]@ == split_nl(s@)[i] by {
                    assert(split_nl(s@)[i] == parts@.map_values(|x: String| x@)[i]);
                }
            }
            break ;
        }
        proof {
            assert(sfx[q - p as int] == '\n');
            assert forall|j: int| 0 <= j < q - p as int implies sfx[j] != '\n' by {
                assert(s@[p + j] != '\n');
            }
            lemma_first_nl_c_is(sfx, q - p as int);
            assert(has_nl_c(sfx));
            assert(split_nl(sfx) == seq![sfx.subrange(0, q - p as int)] + split_nl(
                sfx.subrange(q - p as int + 1, sfx.len() as int),
            ));
            assert(sfx.subrange(q - p as int + 1, sfx.len() as int) =~= s@.subrange(
                q as int + 1,
                n as int,
            ));
            assert(parts@.push(piece).map_values(|x: String| x@) =~= parts@.map_values(
                |x: String| x@,
            ).push(piece@));
            assert(parts@.map_values(|x: String| x@) + (seq![piece@] + split_nl(
                s@.subrange(q as int + 1, n as int),
            )) =~= parts@.map_values(|x: String| x@).push(piece@) + split_nl(
                s@.subrange(q as int + 1, n as int),
            ));
        }
        parts.push(piece);
        p = q + 1;
    }
    parts
}

/// The ID-to-translation pair one returned line contributes: lines with a
/// separator contribute their trimmed ID and trimmed text; others nothing.
pub open spec fn entry_of(line: Seq<char>) -> Seq<(Seq<char>, Seq<char>)> {
    if has_sep(line) {
        seq![(line_id(line), spec_trim(line_rest(line)))]
    } else {
        Seq::empty()
    }
}

/// All pairs contributed by the returned lines, in order.
pub open spec fn spec_entries(lines: Seq<Seq<char>>) -> Seq<(Seq<char>, Seq<char>)>
    decreases lines.len(),
{
    if lines.len() == 0 {
        Seq::empty()
    } else {
        entry_of(lines[0]) + spec_entries(lines.drop_first())
    }
}

proof fn lemma_entries_snoc(lines: Seq<Seq<char>>, x: Seq<char>)
    ensures
        spec_entries(lines.push(x)) == spec_entries(lines) + entry_of(x),
    decreases lines.len(),
{
    let p = lines.push(x);
    if lines.len() == 0 {
        assert(p.drop_first() =~= Seq::<Seq<char>>::empty());
        assert(p[0] == x);
        assert(spec_entries(Seq::<Seq<char>>::empty()) =~= Seq::<(Seq<char>, Seq<char>)>::empty());
        assert(spec_entries(p) =~= entry_of(x));
        assert(spec_entries(lines) + entry_of(x) =~= entry_of(x));
    } else {
        lemma_entries_snoc(lines.drop_first(), x);
        assert(p.drop_first() =~= lines.drop_first().push(x));
        assert(p[0] == lines[0]);
        assert(spec_entries(p) =~= (entry_of(lines[0]) + spec_entries(lines.drop_first()))
            + entry_of(x));
    }
}

/// The translation recorded for an ID: the last returned occurrence wins.
pub open spec fn spec_lookup(es: Seq<(Seq<char>, Seq<char>)>, id: Seq<char>) -> Option<
    Seq<char>,
>
    decreases es.len(),
{
    if es.len() == 0 {
        None
    } else if es.last().0 == id {
        Some(es.last().1)
    } else {
        spec_lookup(es.drop_last(), id)
    }
}

/// The views of an executable entry list.
pub open spec fn entry_views(es: Seq<(String, String)>) -> Seq<(Seq<char>, Seq<char>)> {
    Seq::new(es.len(), |k: int| (es[k].0@, es[k].1@))
}

fn build_entry_map(lines: &Vec<String>) -> (es: Vec<(String, String)>)
    ensures
        entry_views(es@) == spec_entries(lines@.map_values(|l: String| l@)),
{
    let ghost vs = lines@.map_values(|l: String| l@);
    let mut es: Vec<(String, String)> = Vec::new();
    let mut i: usize = 0;
    proof {
        assert(vs.take(0) =~= Seq::<Seq<char>>::empty());
        assert(entry_views(es@) =~= spec_entries(vs.take(0)));
    }
    while i < lines.len()
        invariant
            i <= lines@.len(),
            vs == lines@.map_values(|l: String| l@),
            entry_views(es@) == spec_entries(vs.take(i as int)),
        decreases lines@.len() - i,
    {
        let line: &String = &lines[i];
        proof {
            lemma_entries_snoc(vs.take(i as int), vs[i as int]);
            assert(vs.take(i as int + 1) =~= vs.take(i as int).push(vs[i as int]));
            assert(vs[i as int] == line@);
        }
        match split_line(line.as_str()) {
            Some(parts) => {
                let id = trim_str(parts.0.as_str());
                let text = trim_str(parts.1.as_str());
                es.push((id, text));
                proof {
                    assert(entry_views(es@) =~= spec_entries(vs.take(i as int)) + entry_of(
                        line@,
                    ));
                }
            },
            None => {
                proof {
                    assert(entry_of(line@) =~= Seq::<(Seq<char>, Seq<char>)>::empty());
                    assert(entry_views(es@) =~= spec_entries(vs.take(i as int)) + entry_of(
                        line@,
                    ));
                }
            },
        }
        i = i + 1;
    }
    proof {
        assert(vs.take(lines@.len() as int) =~= vs);
    }
    es
}

fn lookup_translation(es: &Vec<(String, String)>, id: &String) -> (r: Option<String>)
    ensures
        match r {
            Some(t) => spec_lookup(entry_views(es@), id@) == Some(t@),
            None => spec_lookup(entry_views(es@), id@) is None,
        },
{
    let mut j: usize = es.len();
    proof {
        assert(entry_views(es@).take(es@.len() as int) =~= entry_views(es@));
    }
    while j > 0
        invariant
            j <= es@.len(),
            spec_lookup(entry_views(es@), id@) == spec_lookup(
                entry_views(es@).take(j as int),
                id@,
            ),
        decreases j,
    {
        let pair: &(String, String) = &es[j - 1];
        proof {
            let t = entry_views(es@).take(j as int);
            assert(t.last() == (es@[j - 1].0@, es@[j - 1].1@));
            assert(t.drop_last() =~= entry_views(es@).take(j as int - 1));
        }
        if pair.0.eq(id) {
            proof {
                assert(entry_views(es@).take(j as int).last().0 == id@);
            }
            return Some(pair.1.clone());
        }
        proof {
            assert(entry_views(es@).take(j as int).last().0 != id@);
        }
        j = j - 1;
    }
    proof {
        assert(entry_views(es@).take(0) =~= Seq::<(Seq<char>, Seq<char>)>::empty());
    }
    None
}

/// What one original batch line becomes after the response mapping: a line
/// that carries a nonempty ID with a returned translation becomes
/// `ID:::translation`; a line whose ID was not returned, or that carries no
/// ID, passes through unchanged.
pub open spec fn spec_mapped_line(line: Seq<char>, es: Seq<(Seq<char>, Seq<char>)>) -> Seq<
    char,
> {
    if has_sep(line) && line_id(line).len() > 0 {
        match spec_lookup(es, line_id(line)) {
            Some(t) => line_id(line) + sep_seq() + t,
            None => line,
        }
    } else {
        line
    }
}

/// The pairs the full response text contributes: its trimmed text, split at
/// newlines, each line's trimmed ID and translation.
pub open spec fn response_entries(full_content: Seq<char>) -> Seq<(Seq<char>, Seq<char>)> {
    spec_entries(split_nl(spec_trim(full_content)))
}

/// Maps the decoded response text back onto the batch's original lines:
/// one output line per original line, in batch order, each its
/// `spec_mapped_line` — so a partial or differently-keyed response leaves
/// the unmatched lines untranslated rather than failing the batch.
pub fn map_results(batch_lines: &Vec<String>, full_content: &str) -> (r: Vec<String>)
    ensures
        r@.len() == batch_lines@.len(),
        forall|i: int|
            0 <= i < r@.len() ==> #[trigger] r@[i]@ == spec_mapped_line(
                batch_lines@[i]@,
                response_entries(full_content@),
            ),
{
    let trimmed = trim_str(full_content);
    let lines = split_lines_nl(trimmed.as_str());
    let es = build_entry_map(&lines);
    proof {
        assert(lines@.map_values(|l: String| l@) =~= split_nl(spec_trim(full_content@)));
    }
    let mut out: Vec<String> = Vec::new();
    let mut i: usize = 0;
    while i < batch_lines.len()
        invariant
            i <= batch_lines@.len(),
            out@.len() == i,
            entry_views(es@) == response_entries(full_content@),
            forall|k: int|
                0 <= k < i ==> #[trigger] out@[k]@ == spec_mapped_line(
                    batch_lines@[k]@,
                    response_entries(full_content@),
                ),
        decreases batch_lines@.len() - i,
    {
        let line: &String = &batch_lines[i];
        match split_line(line.as_str()) {
            None => {
                out.push(line.clone());
            },
            Some(parts) => {
                let id = trim_str(parts.0.as_str());
                if id.as_str().unicode_len() == 0 {
                    out.push(line.clone());
                } else {
                    match lookup_translation(&es, &id) {
                        Some(t) => {
                            let mapped = format_line(id.as_str(), t.as_str());
                            out.push(mapped);
                        },
                        None => {
                            out.push(line.clone());
                        },
                    }
                }
            },
        }
        i = i + 1;
    }
    out
}

/// The trimmed ID-part of a line: the trimmed text before the first
/// separator, or the whole line trimmed when it has none — what the
/// dispatcher logs as a batch's first and last ID.
pub fn batch_edge_id(line: &str) -> (r: String)
    ensures
        r@ == line_id(line@),
{
    match find_sep(line) {
        Some(i) => {
            proof {
                crate::lines::lemma_first_sep_props(line@);
            }
            trim_str(line.substring_char(0, i))
        },
        None => {
            proof {
                crate::lines::lemma_first_sep_props(line@);
                assert(line_id_raw(line@) =~= line@);
            }
            trim_str(line)
        },
    }
}

} // verus!
