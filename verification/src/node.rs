//! The local peer protocol: request lines, replies, response checks and sync
//! plans. Requests and replies are single lines of whitespace-separated words.
use vstd::prelude::*;
use vstd::string::StringSliceAdditionalSpecFns;
use vstd::string::StrSliceExecFns;
use vstd::utf8::{decode_utf8, encode_utf8, valid_utf8};
use crate::block::{Block, BlockView, header_hash_of};
use crate::chain::Chain;
use crate::decode::{decode_signed_tx_file, decode_tx_file_of, parse_frame};
use crate::encode::{block_file_bytes, block_magic_bytes, block_payload_bytes, framed, tx_magic_bytes};
use crate::error::{WireError, WireFault, wire_message};
use crate::hexcodec::{hex_bytes, hex_decode, hex_text};
use crate::tx::SignedTransaction;
use crate::hash::{parsed_hash, zero32};
use crate::store::{StoreError, store_message};
use crate::text::{decimal, is_space, lemma_decimal_digits, lemma_numeral_roundtrip, lemma_tokens_spaced, no_space, numeral_value, parse_numeral, push_decimal, spaced, split_tokens, tokens, trim, trim_end, trim_end_text, trim_text};
use crate::hexcodec::{hex_encode, lemma_hex_roundtrip, lemma_hex_text_ascii};

verus! {

/// Where a node listens and what it allows.
#[derive(Clone, Debug)]
pub struct NodeConfig {
    pub host: String,
    pub port: u16,
    pub data_dir: String,
    pub allow_non_loopback: bool,
    pub max_frame_bytes: usize,
    pub connect_timeout_ms: u64,
    pub invalid_message_limit: usize,
}

impl Default for NodeConfig {
    fn default() -> (c: Self)
        ensures
            c.host@ == "127.0.0.1"@,
            c.port == 3030,
            c.data_dir@ == ".dustchain"@,
            !c.allow_non_loopback,
            c.max_frame_bytes == 4_194_304,
            c.connect_timeout_ms == 2_000,
            c.invalid_message_limit == 8,
    {
        NodeConfig {
            host: String::from_str("127.0.0.1"),
            port: 3030,
            data_dir: String::from_str(".dustchain"),
            allow_non_loopback: false,
            max_frame_bytes: 4_194_304,
            connect_timeout_ms: 2_000,
            invalid_message_limit: 8,
        }
    }
}

/// Why a node or a peer exchange failed.
#[derive(Debug)]
pub enum NodeError {
    P2pNotImplemented,
    Protocol(String),
    FrameTooLarge { max: usize, received: usize },
    Timeout(String),
    NonLoopbackHost { host: String },
    Io(String),
    Hex,
    Wire(WireError),
    Store(StoreError),
}

/// The text of a node failure.
pub open spec fn node_message(e: &NodeError) -> Seq<char> {
    match e {
        NodeError::P2pNotImplemented => "node error: local P2P is scheduled for v0.5; current command is a safe stub"@,
        NodeError::Protocol(m) => "protocol error: "@ + m@,
        NodeError::FrameTooLarge { max, received } => "frame too large: max "@ + decimal(*max as nat) + " bytes, received "@ + decimal(*received as nat) + " bytes"@,
        NodeError::Timeout(m) => "timed out: "@ + m@,
        NodeError::NonLoopbackHost { host } => "refusing non-loopback host "@ + host@ + "; pass --allow-non-loopback to bind it"@,
        NodeError::Io(m) => "io error: "@ + m@,
        NodeError::Hex => "hex decode failed"@,
        NodeError::Wire(e) => "wire error: "@ + wire_message(e),
        NodeError::Store(e) => "store error: "@ + store_message(e),
    }
}

impl NodeError {
    /// The text of this error.
    pub fn to_string(&self) -> (s: String)
        ensures
            s@ == node_message(self),
    {
        match self {
            NodeError::P2pNotImplemented => {
                String::from_str("node error: local P2P is scheduled for v0.5; current command is a safe stub")
            },
            NodeError::Protocol(m) => {
                let mut s = String::from_str("protocol error: ");
                s.append(m.as_str());
                s
            },
            NodeError::FrameTooLarge { max, received } => {
                let mut s = String::from_str("frame too large: max ");
                push_decimal(&mut s, *max as u64);
                s.append(" bytes, received ");
                push_decimal(&mut s, *received as u64);
                s.append(" bytes");
                s
            },
            NodeError::Timeout(m) => {
                let mut s = String::from_str("timed out: ");
                s.append(m.as_str());
                s
            },
            NodeError::NonLoopbackHost { host } => {
                let mut s = String::from_str("refusing non-loopback host ");
                s.append(host.as_str());
                s.append("; pass --allow-non-loopback to bind it");
                s
            },
            NodeError::Io(m) => {
                let mut s = String::from_str("io error: ");
                s.append(m.as_str());
                s
            },
            NodeError::Hex => {
                String::from_str("hex decode failed")
            },
            NodeError::Wire(e) => {
                let mut s = String::from_str("wire error: ");
                s.append(e.to_string().as_str());
                s
            },
            NodeError::Store(e) => {
                let mut s = String::from_str("store error: ");
                s.append(e.to_string().as_str());
                s
            },
        }
    }
}

/// The length of a text in UTF-8 bytes, as `str::len` gives it.
pub open spec fn byte_len(s: Seq<char>) -> usize {
    encode_utf8(s).len() as usize
}

/// Whether two texts are the same characters.
pub fn text_eq(a: &str, b: &str) -> (r: bool)
    ensures
        r == (a@ == b@),
{
    let n = a.unicode_len();
    if n != b.unicode_len() {
        return false;
    }
    let mut i: usize = 0;
    while i < n
        invariant
            n == a@.len(),
            n == b@.len(),
            i <= n,
            a@.take(i as int) == b@.take(i as int),
        decreases n - i,
    {
        if a.get_char(i) != b.get_char(i) {
            assert(a@[i as int] != b@[i as int]);
            return false;
        }
        assert(a@.take(i + 1) =~= a@.take(i as int).push(a@[i as int]));
        assert(b@.take(i + 1) =~= b@.take(i as int).push(b@[i as int]));
        i += 1;
    }
    assert(a@ =~= a@.take(n as int));
    assert(b@ =~= b@.take(n as int));
    true
}

/// `s` begins with `prefix`.
pub open spec fn has_prefix(s: Seq<char>, prefix: Seq<char>) -> bool {
    prefix.len() <= s.len() && s.take(prefix.len() as int) == prefix
}

/// Whether `s` begins with `prefix`, as `str::starts_with` says.
pub fn starts_with(s: &str, prefix: &str) -> (r: bool)
    ensures
        r == has_prefix(s@, prefix@),
{
    let n = prefix.unicode_len();
    if n > s.unicode_len() {
        return false;
    }
    let head = s.substring_char(0, n);
    text_eq(head, prefix)
}

/// A text made of two parts.
fn joined(a: &str, b: &str) -> (s: String)
    ensures
        s@ == a@ + b@,
{
    let mut s = String::from_str(a);
    s.append(b);
    s
}

/// The words of a line, each as characters.
pub open spec fn words_view(v: Seq<&str>) -> Seq<Seq<char>> {
    v.map_values(|w: &str| w@)
}

/// The words of a line as `split_tokens` gives them.
fn words(line: &str) -> (r: Vec<&str>)
    ensures
        words_view(r@) == tokens(line@),
{
    let r = split_tokens(line);
    assert(words_view(r@) =~= tokens(line@));
    r
}

/// The number in word `i`, named `field` in errors.
pub open spec fn u64_field(t: Seq<Seq<char>>, i: int, field: Seq<char>) -> Result<u64, Seq<char>> {
    if i >= t.len() {
        Err(field + " missing"@)
    } else {
        match numeral_value(t[i], u64::MAX as nat) {
            Some(v) => Ok(v as u64),
            None => Err(field + " is not a number"@),
        }
    }
}

/// The count in word `i`, named `field` in errors.
pub open spec fn usize_field(t: Seq<Seq<char>>, i: int, field: Seq<char>) -> Result<usize, Seq<char>> {
    if i >= t.len() {
        Err(field + " missing"@)
    } else {
        match numeral_value(t[i], usize::MAX as nat) {
            Some(v) => Ok(v as usize),
            None => Err(field + " is not a number"@),
        }
    }
}

/// The digest in word `i`, named `field` in errors.
pub open spec fn hash_field(t: Seq<Seq<char>>, i: int, field: Seq<char>) -> Result<Seq<u8>, Seq<char>> {
    if i >= t.len() {
        Err(field + " missing"@)
    } else {
        match parsed_hash(encode_utf8(t[i])) {
            Some(b) => Ok(b),
            None => Err(field + " is not a valid hash"@),
        }
    }
}

fn missing_error(field: &str) -> (e: NodeError)
    ensures
        e matches NodeError::Protocol(m) && m@ == field@ + " missing"@,
{
    NodeError::Protocol(joined(field, " missing"))
}

/// Reads the number in word `i` of a line.
fn take_u64_field(t: &Vec<&str>, i: usize, field: &str) -> (r: Result<u64, NodeError>)
    ensures
        match u64_field(words_view(t@), i as int, field@) {
            Ok(v) => r == Ok::<u64, NodeError>(v),
            Err(m) => r matches Err(NodeError::Protocol(e)) && e@ == m,
        },
{
    if i >= t.len() {
        return Err(missing_error(field));
    }
    assert(words_view(t@)[i as int] == t@[i as int]@);
    match parse_numeral(t[i], u64::MAX) {
        Some(v) => Ok(v),
        None => Err(NodeError::Protocol(joined(field, " is not a number"))),
    }
}

/// Reads the count in word `i` of a line.
fn take_usize_field(t: &Vec<&str>, i: usize, field: &str) -> (r: Result<usize, NodeError>)
    ensures
        match usize_field(words_view(t@), i as int, field@) {
            Ok(v) => r == Ok::<usize, NodeError>(v),
            Err(m) => r matches Err(NodeError::Protocol(e)) && e@ == m,
        },
{
    if i >= t.len() {
        return Err(missing_error(field));
    }
    assert(words_view(t@)[i as int] == t@[i as int]@);
    match parse_numeral(t[i], usize::MAX as u64) {
        Some(v) => Ok(v as usize),
        None => Err(NodeError::Protocol(joined(field, " is not a number"))),
    }
}

/// Reads the digest in word `i` of a line.
fn take_hash_field(t: &Vec<&str>, i: usize, field: &str) -> (r: Result<crate::hash::Hash, NodeError>)
    ensures
        match hash_field(words_view(t@), i as int, field@) {
            Ok(b) => r matches Ok(h) && h@ == b,
            Err(m) => r matches Err(NodeError::Protocol(e)) && e@ == m,
        },
{
    if i >= t.len() {
        return Err(missing_error(field));
    }
    assert(words_view(t@)[i as int] == t@[i as int]@);
    match crate::hash::Hash::from_str(t[i]) {
        Ok(h) => Ok(h),
        Err(_) => Err(NodeError::Protocol(joined(field, " is not a valid hash"))),
    }
}

/// What a peer may ask.
#[derive(Debug, PartialEq, Eq)]
pub enum PeerRequest {
    Hello { chain_id: String, height: u64, tip_hash: crate::hash::Hash },
    Status,
    GetBlock { height: u64 },
    GetMempool,
    SubmitTx { file_hex: String },
    Ping,
}

/// A request as plain values.
pub enum PeerRequestView {
    Hello { chain_id: Seq<char>, height: u64, tip_hash: Seq<u8> },
    Status,
    GetBlock { height: u64 },
    GetMempool,
    SubmitTx { file_hex: Seq<char> },
    Ping,
}

impl View for PeerRequest {
    type V = PeerRequestView;

    open spec fn view(&self) -> PeerRequestView {
        match self {
            PeerRequest::Hello { chain_id, height, tip_hash } => PeerRequestView::Hello {
                chain_id: chain_id@,
                height: *height,
                tip_hash: tip_hash@,
            },
            PeerRequest::Status => PeerRequestView::Status,
            PeerRequest::GetBlock { height } => PeerRequestView::GetBlock { height: *height },
            PeerRequest::GetMempool => PeerRequestView::GetMempool,
            PeerRequest::SubmitTx { file_hex } => PeerRequestView::SubmitTx { file_hex: file_hex@ },
            PeerRequest::Ping => PeerRequestView::Ping,
        }
    }
}

/// The request that the words of a line make, or the text of what is wrong with it.
pub open spec fn request_of(t: Seq<Seq<char>>) -> Result<PeerRequestView, Seq<char>> {
    if t.len() == 0 {
        Err("empty peer message"@)
    } else if t[0] == "HELLO"@ {
        if t.len() < 2 {
            Err("HELLO missing chain_id"@)
        } else {
            match u64_field(t, 2, "HELLO height"@) {
                Err(m) => Err(m),
                Ok(height) => match hash_field(t, 3, "HELLO tip_hash"@) {
                    Err(m) => Err(m),
                    Ok(tip_hash) => Ok(PeerRequestView::Hello { chain_id: t[1], height, tip_hash }),
                },
            }
        }
    } else if t[0] == "STATUS"@ {
        Ok(PeerRequestView::Status)
    } else if t[0] == "GET_BLOCK"@ {
        match u64_field(t, 1, "GET_BLOCK height"@) {
            Err(m) => Err(m),
            Ok(height) => Ok(PeerRequestView::GetBlock { height }),
        }
    } else if t[0] == "GET_MEMPOOL"@ {
        Ok(PeerRequestView::GetMempool)
    } else if t[0] == "SUBMIT_TX"@ {
        if t.len() < 2 {
            Err("SUBMIT_TX missing hex payload"@)
        } else {
            Ok(PeerRequestView::SubmitTx { file_hex: t[1] })
        }
    } else if t[0] == "PING"@ {
        Ok(PeerRequestView::Ping)
    } else {
        Err("unknown peer message: "@ + t[0])
    }
}

impl PeerRequest {
    /// The request on a line; anything else is a protocol error with its reason.
    pub fn parse(line: &str) -> (r: Result<Self, NodeError>)
        ensures
            match request_of(tokens(line@)) {
                Ok(q) => r matches Ok(p) && p@ == q,
                Err(m) => r matches Err(NodeError::Protocol(e)) && e@ == m,
            },
    {
        let t = words(line);
        let ghost tv = words_view(t@);
        if t.len() == 0 {
            return Err(NodeError::Protocol(String::from_str("empty peer message")));
        }
        let kind = t[0];
        assert(tv[0] == kind@);
        if text_eq(kind, "HELLO") {
            if t.len() < 2 {
                return Err(NodeError::Protocol(String::from_str("HELLO missing chain_id")));
            }
            assert(tv[1] == t@[1]@);
            let chain_id = String::from_str(t[1]);
            let height = take_u64_field(&t, 2, "HELLO height")?;
            let tip_hash = take_hash_field(&t, 3, "HELLO tip_hash")?;
            Ok(PeerRequest::Hello { chain_id, height, tip_hash })
        } else if text_eq(kind, "STATUS") {
            Ok(PeerRequest::Status)
        } else if text_eq(kind, "GET_BLOCK") {
            let height = take_u64_field(&t, 1, "GET_BLOCK height")?;
            Ok(PeerRequest::GetBlock { height })
        } else if text_eq(kind, "GET_MEMPOOL") {
            Ok(PeerRequest::GetMempool)
        } else if text_eq(kind, "SUBMIT_TX") {
            if t.len() < 2 {
                return Err(NodeError::Protocol(String::from_str("SUBMIT_TX missing hex payload")));
            }
            assert(tv[1] == t@[1]@);
            Ok(PeerRequest::SubmitTx { file_hex: String::from_str(t[1]) })
        } else if text_eq(kind, "PING") {
            Ok(PeerRequest::Ping)
        } else {
            Err(NodeError::Protocol(joined("unknown peer message: ", kind)))
        }
    }
}

/// What a peer reports of itself.
#[derive(Debug)]
pub struct PeerStatus {
    pub chain_id: String,
    pub height: u64,
    pub tip_hash: crate::hash::Hash,
    pub mempool_txs: usize,
}

/// A peer's report as plain values.
pub struct PeerStatusView {
    pub chain_id: Seq<char>,
    pub height: u64,
    pub tip_hash: Seq<u8>,
    pub mempool_txs: usize,
}

impl View for PeerStatus {
    type V = PeerStatusView;

    open spec fn view(&self) -> PeerStatusView {
        PeerStatusView {
            chain_id: self.chain_id@,
            height: self.height,
            tip_hash: self.tip_hash@,
            mempool_txs: self.mempool_txs,
        }
    }
}

/// The report that a `STATUS` reply line carries, or the text of what is wrong with it.
pub open spec fn status_of(line: Seq<char>) -> Result<PeerStatusView, Seq<char>> {
    let t = tokens(line);
    if t.len() == 0 || t[0] != "STATUS"@ {
        Err("expected STATUS response, received: "@ + line)
    } else if t.len() < 2 {
        Err("STATUS missing chain_id"@)
    } else {
        match u64_field(t, 2, "STATUS height"@) {
            Err(m) => Err(m),
            Ok(height) => match hash_field(t, 3, "STATUS tip_hash"@) {
                Err(m) => Err(m),
                Ok(tip_hash) => match usize_field(t, 4, "STATUS mempool_txs"@) {
                    Err(m) => Err(m),
                    Ok(mempool_txs) => Ok(PeerStatusView { chain_id: t[1], height, tip_hash, mempool_txs }),
                },
            },
        }
    }
}

/// The peer report on a `STATUS` reply line.
pub fn parse_status_response(line: &str) -> (r: Result<PeerStatus, NodeError>)
    ensures
        match status_of(line@) {
            Ok(v) => r matches Ok(p) && p@ == v,
            Err(m) => r matches Err(NodeError::Protocol(e)) && e@ == m,
        },
{
    let t = words(line);
    let ghost tv = words_view(t@);
    if t.len() == 0 || !text_eq(t[0], "STATUS") {
        proof {
            if t.len() > 0 {
                assert(tv[0] == t@[0]@);
            }
        }
        return Err(NodeError::Protocol(joined("expected STATUS response, received: ", line)));
    }
    assert(tv[0] == t@[0]@);
    if t.len() < 2 {
        return Err(NodeError::Protocol(String::from_str("STATUS missing chain_id")));
    }
    assert(tv[1] == t@[1]@);
    let chain_id = String::from_str(t[1]);
    let height = take_u64_field(&t, 2, "STATUS height")?;
    let tip_hash = take_hash_field(&t, 3, "STATUS tip_hash")?;
    let mempool_txs = take_usize_field(&t, 4, "STATUS mempool_txs")?;
    Ok(PeerStatus { chain_id, height, tip_hash, mempool_txs })
}

/// The reply line to a `STATUS` or `HELLO` request.
pub open spec fn status_reply_text(chain_id: Seq<char>, height: u64, tip_hash: Seq<u8>, mempool_txs: usize) -> Seq<char> {
    "STATUS "@ + chain_id + " "@ + decimal(height as nat) + " "@ + crate::hexcodec::hex_text(tip_hash) + " "@
        + decimal(mempool_txs as nat) + "\n"@
}

/// Writes the reply line to a `STATUS` or `HELLO` request.
pub fn render_status(chain_id: &str, height: u64, tip_hash: &crate::hash::Hash, mempool_txs: usize) -> (s: String)
    ensures
        s@ == status_reply_text(chain_id@, height, tip_hash@, mempool_txs),
{
    let mut s = String::from_str("STATUS ");
    s.append(chain_id);
    s.append(" ");
    push_decimal(&mut s, height);
    s.append(" ");
    s.append(tip_hash.to_string().as_str());
    s.append(" ");
    push_decimal(&mut s, mempool_txs as u64);
    s.append("\n");
    s
}

/// The line a client sends for a request: the request and a newline, refused
/// where it is longer than `max_frame_bytes` bytes.
pub fn request_frame(request: &str, max_frame_bytes: usize) -> (r: Result<String, NodeError>)
    ensures
        ({
            let out = request@ + "\n"@;
            if byte_len(out) > max_frame_bytes {
                r matches Err(NodeError::FrameTooLarge { max, received }) && max == max_frame_bytes
                    && received == byte_len(out)
            } else {
                r matches Ok(s) && s@ == out
            }
        }),
{
    let out = joined(request, "\n");
    let len = out.as_str().len();
    if len > max_frame_bytes {
        return Err(NodeError::FrameTooLarge { max: max_frame_bytes, received: len });
    }
    Ok(out)
}

/// The reply a client keeps from the line it read: refused where the peer
/// closed without one (`read` is zero) or where it is longer than
/// `max_frame_bytes` bytes; else the line without trailing whitespace.
pub fn reply_line(line: &str, read: usize, max_frame_bytes: usize) -> (r: Result<String, NodeError>)
    ensures
        read == 0 ==> (r matches Err(NodeError::Protocol(m)) && m@ == "peer closed without response"@),
        read != 0 && byte_len(line@) > max_frame_bytes ==> (r matches Err(
            NodeError::FrameTooLarge { max, received },
        ) && max == max_frame_bytes && received == byte_len(line@)),
        read != 0 && byte_len(line@) <= max_frame_bytes ==> (r matches Ok(s) && s@ == trim_end_text(line@)),
{
    if read == 0 {
        return Err(NodeError::Protocol(String::from_str("peer closed without response")));
    }
    let len = line.len();
    if len > max_frame_bytes {
        return Err(NodeError::FrameTooLarge { max: max_frame_bytes, received: len });
    }
    Ok(String::from_str(trim_end(line)))
}

/// What a `GET_BLOCK` reply line says: no such block, the bytes of the block
/// file, or why the line is not a reply.
pub fn parse_block_response(line: &str) -> (r: Result<Option<Vec<u8>>, NodeError>)
    ensures
        has_prefix(line@, "NOT_FOUND "@) ==> r matches Ok(None),
        !has_prefix(line@, "NOT_FOUND "@) ==> ({
            let t = tokens(line@);
            if t.len() >= 3 && t[0] == "BLOCK"@ {
                match hex_bytes(encode_utf8(t[2])) {
                    Some(b) => r matches Ok(Some(v)) && v@ == b,
                    None => r matches Err(NodeError::Hex),
                }
            } else {
                r matches Err(NodeError::Protocol(m)) && m@ == "unexpected GET_BLOCK response: "@ + line@
            }
        }),
{
    if starts_with(line, "NOT_FOUND ") {
        return Ok(None);
    }
    let t = words(line);
    let ghost tv = words_view(t@);
    if t.len() >= 3 && text_eq(t[0], "BLOCK") {
        assert(tv[2] == t@[2]@);
        match hex_decode(t[2].as_bytes()) {
            Some(bytes) => Ok(Some(bytes)),
            None => Err(NodeError::Hex),
        }
    } else {
        proof {
            if t.len() >= 3 {
                assert(tv[0] == t@[0]@);
            }
        }
        Err(NodeError::Protocol(joined("unexpected GET_BLOCK response: ", line)))
    }
}

/// Checks a `SUBMIT_TX` reply line: it must begin with `ACCEPTED_TX `.
pub fn check_submit_response(line: &str) -> (r: Result<String, NodeError>)
    ensures
        has_prefix(line@, "ACCEPTED_TX "@) ==> (r matches Ok(s) && s@ == line@),
        !has_prefix(line@, "ACCEPTED_TX "@) ==> (r matches Err(NodeError::Protocol(m)) && m@
            == "unexpected SUBMIT_TX response: "@ + line@),
{
    if starts_with(line, "ACCEPTED_TX ") {
        Ok(String::from_str(line))
    } else {
        Err(NodeError::Protocol(joined("unexpected SUBMIT_TX response: ", line)))
    }
}

/// Checks a `PING` reply line: without surrounding whitespace it must be `PONG`.
pub fn check_ping_response(line: &str) -> (r: Result<(), NodeError>)
    ensures
        trim_text(line@) == "PONG"@ ==> r is Ok,
        trim_text(line@) != "PONG"@ ==> (r matches Err(NodeError::Protocol(m)) && m@
            == "unexpected ping response: "@ + line@),
{
    if text_eq(trim(line), "PONG") {
        Ok(())
    } else {
        Err(NodeError::Protocol(joined("unexpected ping response: ", line)))
    }
}

/// The reply line to a request that failed.
pub fn error_reply(err: &NodeError) -> (s: String)
    ensures
        s@ == "ERROR "@ + node_message(err) + "\n"@,
{
    let mut s = String::from_str("ERROR ");
    s.append(err.to_string().as_str());
    s.append("\n");
    s
}

/// What a peer session does with one line it read.
#[derive(Debug)]
pub enum SessionAction {
    /// Answer the request, then read on.
    Serve(PeerRequest),
    /// Write this line, then read on.
    Reply(String),
    /// Write this line and stop: the peer sent too many bad lines.
    Close(String),
    /// Write this line and stop with `NodeError::FrameTooLarge`.
    RefuseFrame(String),
}

/// The state of one peer connection: how many bad lines it has sent.
#[derive(Debug)]
pub struct PeerSession {
    pub invalid_messages: usize,
}

impl PeerSession {
    /// The session is still open under a limit of bad lines.
    pub open spec fn open_under(&self, limit: usize) -> bool {
        self.invalid_messages == 0 || self.invalid_messages < limit
    }

    /// A session that has seen no bad line.
    pub fn new() -> (s: Self)
        ensures
            s.invalid_messages == 0,
    {
        PeerSession { invalid_messages: 0 }
    }

    /// Decides what to do with a line read from the peer (newline included):
    /// refuse it when longer than `max_frame_bytes` bytes; serve the request it
    /// holds; else count it as bad and answer with the error, or close once
    /// `invalid_message_limit` bad lines have come.
    pub fn on_line(&mut self, line: &str, max_frame_bytes: usize, invalid_message_limit: usize) -> (a: SessionAction)
        requires
            old(self).open_under(invalid_message_limit),
        ensures
            byte_len(line@) > max_frame_bytes ==> {
                &&& a matches SessionAction::RefuseFrame(m)
                &&& m@ == "ERROR frame_too_large max="@ + decimal(max_frame_bytes as nat) + " received="@
                    + decimal(byte_len(line@) as nat) + "\n"@
                &&& final(self).invalid_messages == old(self).invalid_messages
            },
            byte_len(line@) <= max_frame_bytes ==> match request_of(tokens(trim_end_text(line@))) {
                Ok(q) => a matches SessionAction::Serve(p) && p@ == q && final(self).invalid_messages
                    == old(self).invalid_messages,
                Err(m) => {
                    &&& final(self).invalid_messages == old(self).invalid_messages + 1
                    &&& final(self).invalid_messages >= invalid_message_limit ==> (a matches SessionAction::Close(c)
                        && c@ == "ERROR invalid_message_limit\n"@)
                    &&& final(self).invalid_messages < invalid_message_limit ==> (a matches SessionAction::Reply(c)
                        && c@ == "ERROR "@ + "protocol error: "@ + m + "\n"@)
                },
            },
            a is Reply || a is Serve ==> final(self).open_under(invalid_message_limit),
    {
        let len = line.len();
        if len > max_frame_bytes {
            let mut m = String::from_str("ERROR frame_too_large max=");
            push_decimal(&mut m, max_frame_bytes as u64);
            m.append(" received=");
            push_decimal(&mut m, len as u64);
            m.append("\n");
            return SessionAction::RefuseFrame(m);
        }
        match PeerRequest::parse(trim_end(line)) {
            Ok(request) => SessionAction::Serve(request),
            Err(err) => {
                self.invalid_messages = self.invalid_messages + 1;
                if self.invalid_messages >= invalid_message_limit {
                    SessionAction::Close(String::from_str("ERROR invalid_message_limit\n"))
                } else {
                    SessionAction::Reply(error_reply(&err))
                }
            },
        }
    }
}

/// The digest of a chain's last block, or zeros with no blocks.
pub open spec fn tip_digest(blocks: Seq<Block>) -> Seq<u8> {
    if blocks.len() == 0 {
        zero32()
    } else {
        header_hash_of(blocks.last().header@)
    }
}

/// The height of a chain's last block, or zero with no blocks.
pub open spec fn tip_height(blocks: Seq<Block>) -> u64 {
    if blocks.len() == 0 {
        0
    } else {
        blocks.last().header.height
    }
}

/// The index of the first block at `height`, if any.
pub open spec fn block_index_at(blocks: Seq<Block>, height: u64) -> Option<int> {
    if exists|i: int| 0 <= i < blocks.len() && (#[trigger] blocks[i]).header.height == height {
        Some(
            choose|i: int|
                0 <= i < blocks.len() && (#[trigger] blocks[i]).header.height == height && forall|j: int|
                    0 <= j < i ==> (#[trigger] blocks[j]).header.height != height,
        )
    } else {
        None
    }
}

/// The first block at `height`, if any.
pub fn find_block(blocks: &Vec<Block>, height: u64) -> (r: Option<&Block>)
    ensures
        match block_index_at(blocks@, height) {
            Some(i) => 0 <= i < blocks@.len() && r == Some(&blocks@[i]),
            None => r is None,
        },
{
    let mut i: usize = 0;
    while i < blocks.len()
        invariant
            i <= blocks@.len(),
            forall|j: int| 0 <= j < i ==> (#[trigger] blocks@[j]).header.height != height,
        decreases blocks@.len() - i,
    {
        if blocks[i].header.height == height {
            proof {
                let k = i as int;
                assert(0 <= k < blocks@.len() && blocks@[k].header.height == height && forall|j: int|
                    0 <= j < k ==> (#[trigger] blocks@[j]).header.height != height);
                let c = choose|c: int|
                    0 <= c < blocks@.len() && (#[trigger] blocks@[c]).header.height == height && forall|j: int|
                        0 <= j < c ==> (#[trigger] blocks@[j]).header.height != height;
                if c < k {
                    assert(blocks@[c].header.height != height);
                }
                if k < c {
                    assert(blocks@[k].header.height != height);
                }
            }
            return Some(&blocks[i]);
        }
        i += 1;
    }
    None
}

/// The reply line to `GET_BLOCK`: the block file in hex, or that there is none.
pub open spec fn block_reply_text(height: u64, block: Option<BlockView>) -> Seq<char> {
    match block {
        Some(b) => "BLOCK "@ + decimal(height as nat) + " "@ + hex_text(framed(block_magic_bytes(), block_payload_bytes(b)))
            + "\n"@,
        None => "NOT_FOUND block "@ + decimal(height as nat) + "\n"@,
    }
}

/// Writes the reply line to `GET_BLOCK`.
pub fn block_reply(height: u64, block: Option<&Block>) -> (s: String)
    ensures
        s@ == block_reply_text(height, match block { Some(b) => Some(b@), None => None }),
{
    match block {
        Some(b) => {
            let mut s = String::from_str("BLOCK ");
            push_decimal(&mut s, height);
            s.append(" ");
            let bytes = block_file_bytes(b);
            s.append(crate::hexcodec::hex_encode(bytes.as_slice()).as_str());
            s.append("\n");
            s
        },
        None => {
            let mut s = String::from_str("NOT_FOUND block ");
            push_decimal(&mut s, height);
            s.append("\n");
            s
        },
    }
}

/// The hex texts of digests, joined by commas.
pub open spec fn joined_hashes(h: Seq<Seq<u8>>) -> Seq<char>
    decreases h.len(),
{
    if h.len() == 0 {
        Seq::empty()
    } else if h.len() == 1 {
        hex_text(h[0])
    } else {
        joined_hashes(h.drop_last()) + ","@ + hex_text(h.last())
    }
}

/// The digests of pending transactions.
pub open spec fn pending_hashes(pending: Seq<SignedTransaction>) -> Seq<Seq<u8>> {
    pending.map_values(|t: SignedTransaction| t.hash@)
}

/// The reply line to `GET_MEMPOOL`: how many transactions are pending and
/// their digests. Every digest text is non-empty, so the count is that of the
/// comma-separated digests.
pub open spec fn mempool_reply_text(pending: Seq<SignedTransaction>) -> Seq<char> {
    "MEMPOOL "@ + decimal(pending.len()) + " "@ + joined_hashes(pending_hashes(pending)) + "\n"@
}

/// Writes the reply line to `GET_MEMPOOL`.
pub fn mempool_reply(pending: &[SignedTransaction]) -> (s: String)
    ensures
        s@ == mempool_reply_text(pending@),
{
    let mut list = String::new();
    let mut i: usize = 0;
    while i < pending.len()
        invariant
            i <= pending@.len(),
            list@ == joined_hashes(pending_hashes(pending@.take(i as int))),
        decreases pending@.len() - i,
    {
        let ghost before = pending@.take(i as int);
        let ghost after = pending@.take(i + 1);
        assert(pending_hashes(after).drop_last() =~= pending_hashes(before));
        assert(pending_hashes(after).last() == pending@[i as int].hash@);
        if i > 0 {
            list.append(",");
        }
        list.append(pending[i].hash.to_string().as_str());
        proof {
            if i == 0 {
                assert(pending_hashes(before) =~= Seq::<Seq<u8>>::empty());
            }
        }
        i += 1;
    }
    assert(pending@.take(pending@.len() as int) =~= pending@);
    let mut s = String::from_str("MEMPOOL ");
    push_decimal(&mut s, pending.len() as u64);
    s.append(" ");
    s.append(list.as_str());
    s.append("\n");
    s
}

/// The reply line to an accepted `SUBMIT_TX`: the digest and where it was kept.
pub fn accepted_reply(hash: &crate::hash::Hash, path: &str) -> (s: String)
    ensures
        s@ == "ACCEPTED_TX "@ + hex_text(hash@) + " file="@ + path@ + "\n"@,
{
    let mut s = String::from_str("ACCEPTED_TX ");
    s.append(hash.to_string().as_str());
    s.append(" file=");
    s.append(path);
    s.append("\n");
    s
}

/// What answering a request gives: a reply line, or a transaction to keep
/// (whose reply is `accepted_reply` once it is kept).
#[derive(Debug)]
pub enum PeerReply {
    Text(String),
    Accept(SignedTransaction),
}

/// Answers a request from the chain and the pending transactions.
pub fn process_request(request: PeerRequest, chain: &Chain, pending: &[SignedTransaction]) -> (r: Result<PeerReply, NodeError>)
    ensures
        match request@ {
            PeerRequestView::Hello { .. } | PeerRequestView::Status => r matches Ok(PeerReply::Text(s)) && s@
                == status_reply_text(chain.chain_id@, tip_height(chain.blocks@), tip_digest(chain.blocks@), pending@.len() as usize),
            PeerRequestView::Ping => r matches Ok(PeerReply::Text(s)) && s@ == "PONG\n"@,
            PeerRequestView::GetBlock { height } => r matches Ok(PeerReply::Text(s)) && s@ == block_reply_text(
                height,
                match block_index_at(chain.blocks@, height) {
                    Some(i) => Some(chain.blocks@[i]@),
                    None => None,
                },
            ),
            PeerRequestView::GetMempool => r matches Ok(PeerReply::Text(s)) && s@ == mempool_reply_text(pending@),
            PeerRequestView::SubmitTx { file_hex } => match hex_bytes(encode_utf8(file_hex)) {
                None => r matches Err(NodeError::Hex),
                Some(b) => match decode_tx_file_of(b) {
                    Ok(t) => r matches Ok(PeerReply::Accept(x)) && x@ == t,
                    Err(e) => r matches Err(NodeError::Wire(x)) && x@ == e,
                },
            },
        },
        request@ matches PeerRequestView::SubmitTx { file_hex } ==> (hex_bytes(encode_utf8(file_hex)) matches Some(b)
            ==> (parse_frame(b, tx_magic_bytes()) matches Err(WireFault::InvalidMagic) ==> (r matches Err(
            NodeError::Wire(WireError::InvalidMagic { expected, received }),
        ) && expected@ == seq!['D', 'U', 'S', 'T', 'T', 'X'] && (valid_utf8(b.take(6)) ==> received@ == decode_utf8(b.take(6)))))),
{
    match request {
        PeerRequest::Hello { .. } | PeerRequest::Status => {
            let tip_hash = match chain.tip() {
                Some(b) => b.header_hash(),
                None => crate::hash::Hash::zero(),
            };
            Ok(PeerReply::Text(render_status(chain.chain_id.as_str(), chain.height(), &tip_hash, pending.len())))
        },
        PeerRequest::Ping => Ok(PeerReply::Text(String::from_str("PONG\n"))),
        PeerRequest::GetBlock { height } => Ok(PeerReply::Text(block_reply(height, find_block(&chain.blocks, height)))),
        PeerRequest::GetMempool => Ok(PeerReply::Text(mempool_reply(pending))),
        PeerRequest::SubmitTx { file_hex } => {
            let bytes = match hex_decode(file_hex.as_str().as_bytes()) {
                Some(b) => b,
                None => {
                    return Err(NodeError::Hex);
                },
            };
            match decode_signed_tx_file(bytes.as_slice()) {
                Ok(signed) => Ok(PeerReply::Accept(signed)),
                Err(e) => Err(NodeError::Wire(e)),
            }
        },
    }
}

/// What to fetch from a peer to reach its height.
#[derive(Debug)]
pub struct SyncPlan {
    pub peer: String,
    pub local_height: u64,
    pub remote_height: u64,
    pub remote_tip: crate::hash::Hash,
    pub blocks_to_fetch: Vec<u64>,
}

/// The heights after `local` up to `remote`, in order.
pub open spec fn heights_between(local: u64, remote: u64) -> Seq<u64> {
    if remote > local {
        Seq::new((remote - local) as nat, |i: int| (local + 1 + i) as u64)
    } else {
        Seq::empty()
    }
}

impl SyncPlan {
    /// Nothing is left to fetch.
    pub fn is_caught_up(&self) -> (b: bool)
        ensures
            b == (self.blocks_to_fetch@.len() == 0),
    {
        self.blocks_to_fetch.len() == 0
    }

    /// The range of heights to fetch as text: `none`, or `first..=last`.
    pub open spec fn range_text(heights: Seq<u64>) -> Seq<char> {
        if heights.len() == 0 {
            "none"@
        } else {
            decimal(heights[0] as nat) + "..="@ + decimal(heights.last() as nat)
        }
    }

    /// The plan as text, one `name: value` line each.
    pub fn render(&self) -> (s: String)
        ensures
            s@ == "peer: "@ + self.peer@ + "\nlocal_height: "@ + decimal(self.local_height as nat)
                + "\nremote_height: "@ + decimal(self.remote_height as nat) + "\nremote_tip: "@
                + hex_text(self.remote_tip@) + "\nblocks_to_fetch: "@ + Self::range_text(self.blocks_to_fetch@)
                + "\n"@,
    {
        let mut s = String::from_str("peer: ");
        s.append(self.peer.as_str());
        s.append("\nlocal_height: ");
        push_decimal(&mut s, self.local_height);
        s.append("\nremote_height: ");
        push_decimal(&mut s, self.remote_height);
        s.append("\nremote_tip: ");
        s.append(self.remote_tip.to_string().as_str());
        s.append("\nblocks_to_fetch: ");
        if self.blocks_to_fetch.len() == 0 {
            s.append("none");
        } else {
            push_decimal(&mut s, self.blocks_to_fetch[0]);
            s.append("..=");
            push_decimal(&mut s, self.blocks_to_fetch[self.blocks_to_fetch.len() - 1]);
        }
        s.append("\n");
        s
    }
}

/// The plan to catch up with a peer that reported `remote`: every height after
/// ours up to the peer's.
pub fn plan_from_status(peer: &str, local_height: u64, remote: PeerStatus) -> (p: SyncPlan)
    requires
        remote.height > local_height ==> remote.height - local_height <= usize::MAX,
    ensures
        p.peer@ == peer@,
        p.local_height == local_height,
        p.remote_height == remote.height,
        p.remote_tip@ == remote.tip_hash@,
        p.blocks_to_fetch@ == heights_between(local_height, remote.height),
{
    let mut blocks_to_fetch: Vec<u64> = Vec::new();
    if remote.height > local_height {
        let mut h: u64 = local_height;
        while h < remote.height
            invariant
                local_height <= h <= remote.height,
                blocks_to_fetch@ == heights_between(local_height, h),
            decreases remote.height - h,
        {
            h = h + 1;
            blocks_to_fetch.push(h);
            assert(blocks_to_fetch@ =~= heights_between(local_height, h));
        }
    }
    assert(blocks_to_fetch@ =~= heights_between(local_height, remote.height));
    SyncPlan {
        peer: String::from_str(peer),
        local_height,
        remote_height: remote.height,
        remote_tip: remote.tip_hash,
        blocks_to_fetch,
    }
}

/// What one round of offering pending transactions to a peer achieved.
#[derive(Debug)]
pub struct GossipReport {
    pub peer: String,
    pub attempted: usize,
    pub accepted: usize,
    pub failed: usize,
}

impl GossipReport {
    /// The report as text, one `name: value` line each.
    pub fn render(&self) -> (s: String)
        ensures
            s@ == "peer: "@ + self.peer@ + "\nattempted: "@ + decimal(self.attempted as nat) + "\naccepted: "@
                + decimal(self.accepted as nat) + "\nfailed: "@ + decimal(self.failed as nat) + "\n"@,
    {
        let mut s = String::from_str("peer: ");
        s.append(self.peer.as_str());
        s.append("\nattempted: ");
        push_decimal(&mut s, self.attempted as u64);
        s.append("\naccepted: ");
        push_decimal(&mut s, self.accepted as u64);
        s.append("\nfailed: ");
        push_decimal(&mut s, self.failed as u64);
        s.append("\n");
        s
    }
}

/// What a node reports of itself.
#[derive(Debug)]
pub struct NodeStatus {
    pub listening_on: String,
    pub height: u64,
    pub tip_hash: crate::hash::Hash,
    pub mempool_txs: usize,
    pub p2p_enabled: bool,
    pub configured_peers: usize,
}

/// A node and its configuration.
#[derive(Debug)]
pub struct Node {
    pub config: NodeConfig,
}

impl Node {
    pub fn new(config: NodeConfig) -> (n: Self)
        ensures
            n.config == config,
    {
        Node { config }
    }

    /// The address the node listens on: `host:port`.
    pub fn listening_on(&self) -> (s: String)
        ensures
            s@ == self.config.host@ + ":"@ + decimal(self.config.port as nat),
    {
        let mut s = String::from_str(self.config.host.as_str());
        s.append(":");
        push_decimal(&mut s, self.config.port as u64);
        s
    }

    /// The node's report from its chain and its pending transactions.
    pub fn status_of(&self, chain: &Chain, mempool_txs: usize, configured_peers: usize, p2p_enabled: bool) -> (s: NodeStatus)
        ensures
            s.listening_on@ == self.config.host@ + ":"@ + decimal(self.config.port as nat),
            s.height == tip_height(chain.blocks@),
            s.tip_hash@ == tip_digest(chain.blocks@),
            s.mempool_txs == mempool_txs,
            s.p2p_enabled == p2p_enabled,
            s.configured_peers == configured_peers,
    {
        let tip_hash = match chain.tip() {
            Some(b) => b.header_hash(),
            None => crate::hash::Hash::zero(),
        };
        NodeStatus {
            listening_on: self.listening_on(),
            height: chain.height(),
            tip_hash,
            mempool_txs,
            p2p_enabled,
            configured_peers,
        }
    }
}

/// The client side of the peer protocol: its frame limit and timeout.
#[derive(Debug)]
pub struct LocalClient {
    pub max_frame_bytes: usize,
    pub timeout_ms: u64,
}

impl LocalClient {
    pub fn new(max_frame_bytes: usize, timeout_ms: u64) -> (c: Self)
        ensures
            c.max_frame_bytes == max_frame_bytes,
            c.timeout_ms == timeout_ms,
    {
        LocalClient { max_frame_bytes, timeout_ms }
    }
}

/// The request line a client sends for the block at `height`.
pub fn get_block_request(height: u64) -> (s: String)
    ensures
        s@ == "GET_BLOCK "@ + decimal(height as nat),
{
    let mut s = String::from_str("GET_BLOCK ");
    push_decimal(&mut s, height);
    s
}

/// The request line a client sends to offer a transaction file.
pub fn submit_tx_request(file_bytes: &[u8]) -> (s: String)
    ensures
        s@ == "SUBMIT_TX "@ + hex_text(file_bytes@),
{
    let mut s = String::from_str("SUBMIT_TX ");
    s.append(hex_encode(file_bytes).as_str());
    s
}

proof fn lemma_decimal_word(n: nat)
    ensures
        decimal(n).len() > 0,
        no_space(decimal(n)),
{
    lemma_decimal_digits(n);
    assert forall|i: int| 0 <= i < decimal(n).len() implies !is_space(#[trigger] decimal(n)[i]) by {
        assert(crate::text::is_digit(decimal(n)[i]));
    }
}

proof fn lemma_hex_word(b: Seq<u8>)
    requires
        b.len() > 0,
    ensures
        hex_text(b).len() > 0,
        no_space(hex_text(b)),
        parsed_hash(encode_utf8(hex_text(b))) == (if b.len() == 32 { Some(b) } else { None::<Seq<u8>> }),
{
    lemma_hex_roundtrip(b);
    lemma_hex_text_ascii(b);
    let h = hex_text(b);
    assert forall|i: int| 0 <= i < h.len() implies !is_space(#[trigger] h[i]) by {
        assert(h[i] == (if i % 2 == 0 {
            crate::hexcodec::hex_digit(b[i / 2] as int / 16)
        } else {
            crate::hexcodec::hex_digit(b[i / 2] as int % 16)
        }) as char);
    }
}

/// A request line that a client writes is read by a node as the request meant:
/// `GET_BLOCK` with its height, and `SUBMIT_TX` with the hex of the file.
pub proof fn lemma_request_roundtrip(height: u64, file_bytes: Seq<u8>)
    requires
        file_bytes.len() > 0,
    ensures
        request_of(tokens("GET_BLOCK "@ + decimal(height as nat))) == Ok::<PeerRequestView, Seq<char>>(
            PeerRequestView::GetBlock { height },
        ),
        request_of(tokens("SUBMIT_TX "@ + hex_text(file_bytes))) == Ok::<PeerRequestView, Seq<char>>(
            PeerRequestView::SubmitTx { file_hex: hex_text(file_bytes) },
        ),
        request_of(tokens("STATUS"@)) == Ok::<PeerRequestView, Seq<char>>(PeerRequestView::Status),
        request_of(tokens("PING"@)) == Ok::<PeerRequestView, Seq<char>>(PeerRequestView::Ping),
{
    reveal_strlit("GET_BLOCK ");
    reveal_strlit("GET_BLOCK");
    reveal_strlit("SUBMIT_TX ");
    reveal_strlit("SUBMIT_TX");
    reveal_strlit("STATUS");
    reveal_strlit("PING");
    reveal_strlit("HELLO");
    reveal_strlit("GET_MEMPOOL");
    reveal_strlit(" ");
    lemma_decimal_word(height as nat);
    lemma_hex_word(file_bytes);
    let w1 = seq!["GET_BLOCK"@, decimal(height as nat)];
    assert(w1.drop_last() =~= seq!["GET_BLOCK"@]);
    assert("GET_BLOCK "@ =~= "GET_BLOCK"@ + " "@);
    assert(spaced(w1.drop_last()) == "GET_BLOCK"@);
    assert("GET_BLOCK "@ + decimal(height as nat) =~= spaced(w1));
    lemma_tokens_spaced(w1);
    lemma_numeral_roundtrip(height as nat, u64::MAX as nat);
    assert("GET_BLOCK"@.len() != "HELLO"@.len());
    assert("GET_BLOCK"@.len() != "STATUS"@.len());
    let w2 = seq!["SUBMIT_TX"@, hex_text(file_bytes)];
    assert(w2.drop_last() =~= seq!["SUBMIT_TX"@]);
    assert("SUBMIT_TX "@ =~= "SUBMIT_TX"@ + " "@);
    assert(spaced(w2.drop_last()) == "SUBMIT_TX"@);
    assert("SUBMIT_TX "@ + hex_text(file_bytes) =~= spaced(w2));
    lemma_tokens_spaced(w2);
    assert("SUBMIT_TX"@.len() != "HELLO"@.len());
    assert("SUBMIT_TX"@.len() != "STATUS"@.len());
    assert("SUBMIT_TX"@[0] != "GET_BLOCK"@[0]);
    assert("SUBMIT_TX"@.len() != "GET_MEMPOOL"@.len());
    let w3 = seq!["STATUS"@];
    assert(spaced(w3) == "STATUS"@);
    lemma_tokens_spaced(w3);
    assert("STATUS"@.len() != "HELLO"@.len());
    let w4 = seq!["PING"@];
    assert(spaced(w4) == "PING"@);
    lemma_tokens_spaced(w4);
    assert("PING"@.len() != "HELLO"@.len());
    assert("PING"@.len() != "STATUS"@.len());
    assert("PING"@.len() != "GET_BLOCK"@.len());
    assert("PING"@.len() != "GET_MEMPOOL"@.len());
    assert("PING"@.len() != "SUBMIT_TX"@.len());
}

/// The status line a node writes is read back by a client as the status it
/// reports, once the client drops the line's end; the chain identifier must be
/// one word.
pub proof fn lemma_status_roundtrip(chain_id: Seq<char>, height: u64, tip_hash: Seq<u8>, mempool_txs: usize)
    requires
        chain_id.len() > 0,
        no_space(chain_id),
        tip_hash.len() == 32,
    ensures
        status_of(trim_end_text(status_reply_text(chain_id, height, tip_hash, mempool_txs))) == Ok::<
            PeerStatusView,
            Seq<char>,
        >(PeerStatusView { chain_id, height, tip_hash, mempool_txs }),
{
    reveal_strlit("STATUS ");
    reveal_strlit("STATUS");
    reveal_strlit(" ");
    reveal_strlit("\n");
    lemma_decimal_word(height as nat);
    lemma_decimal_word(mempool_txs as nat);
    lemma_hex_word(tip_hash);
    let words = seq!["STATUS"@, chain_id, decimal(height as nat), hex_text(tip_hash), decimal(mempool_txs as nat)];
    let line = spaced(words);
    assert(words.drop_last().drop_last().drop_last().drop_last() =~= seq!["STATUS"@]);
    assert("STATUS "@ =~= "STATUS"@ + " "@);
    assert(spaced(words.drop_last().drop_last().drop_last().drop_last()) == "STATUS"@);
    assert(spaced(words.drop_last().drop_last().drop_last()) =~= "STATUS "@ + chain_id);
    assert(spaced(words.drop_last().drop_last()) =~= "STATUS "@ + chain_id + " "@ + decimal(height as nat));
    assert(spaced(words.drop_last()) =~= "STATUS "@ + chain_id + " "@ + decimal(height as nat) + " "@ + hex_text(tip_hash));
    assert(status_reply_text(chain_id, height, tip_hash, mempool_txs) =~= line.push('\n'));
    assert(line.last() == decimal(mempool_txs as nat).last());
    assert(line.push('\n').drop_last() =~= line);
    assert(trim_end_text(line.push('\n')) == trim_end_text(line));
    assert(trim_end_text(line) == line);
    lemma_tokens_spaced(words);
    lemma_numeral_roundtrip(height as nat, u64::MAX as nat);
    lemma_numeral_roundtrip(mempool_txs as nat, usize::MAX as nat);
}

} // verus!
