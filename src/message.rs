use vstd::prelude::*;
use vstd::utf8::{decode_utf8, encode_utf8, valid_utf8};
use crate::block::{block_ok, enc_block, lemma_block_unique, parse_block, Block, BlockView};
use crate::codec::{
    at, bytes_ok, enc_bytes, enc_u32, enc_u64, lemma_at_concat, lemma_bytes_unique, lemma_u32_unique,
    lemma_u64_unique, parse_bytes, parse_u32, parse_u64,
    parse_u8, write_bytes, write_u32, write_u64,
};
use crate::error::McError;
use crate::transaction::{enc_tx, lemma_tx_unique, parse_tx, tx_ok, Transaction, TxView};

verus! {

broadcast use {vstd::utf8::encode_utf8_valid_utf8, vstd::utf8::encode_utf8_decode_utf8, vstd::utf8::decode_utf8_encode_utf8};

/// A node's advertised height and id.
#[derive(Clone, Debug)]
pub struct Status {
    pub id: String,
    pub height: u32,
}

/// The messages that nodes exchange.
#[derive(Debug)]
pub enum Message {
    Transaction(Transaction),
    Text(String),
    Block(Block),
    GetStatus,
    Status(Status),
    /// Heights from `start` up to but not including `end`.
    GetBlocks(std::ops::Range<u32>),
    Blocks(Vec<Block>),
}

/// What a message holds, as mathematical values.
pub enum MessageView {
    Transaction(TxView),
    Text(Seq<char>),
    Block(BlockView),
    GetStatus,
    Status(Seq<char>, u32),
    GetBlocks(u32, u32),
    Blocks(Seq<BlockView>),
}

pub open spec fn block_views(v: Seq<Block>) -> Seq<BlockView> {
    v.map_values(|b: Block| b@)
}

impl View for Message {
    type V = MessageView;

    open spec fn view(&self) -> MessageView {
        match self {
            Message::Transaction(t) => MessageView::Transaction(t@),
            Message::Text(s) => MessageView::Text(s@),
            Message::Block(b) => MessageView::Block(b@),
            Message::GetStatus => MessageView::GetStatus,
            Message::Status(s) => MessageView::Status(s.id@, s.height),
            Message::GetBlocks(r) => MessageView::GetBlocks(r.start, r.end),
            Message::Blocks(v) => MessageView::Blocks(block_views(v@)),
        }
    }
}

/// Text as its UTF-8 bytes, length first.
pub open spec fn enc_text(s: Seq<char>) -> Seq<u8> {
    enc_bytes(encode_utf8(s))
}

/// The concatenated encodings of a list of blocks.
pub open spec fn enc_block_list(s: Seq<BlockView>) -> Seq<u8>
    decreases s.len(),
{
    if s.len() == 0 {
        Seq::empty()
    } else {
        enc_block_list(s.drop_last()) + enc_block(s.last())
    }
}

/// The encoding of a message: a tag byte, then what the message carries.
pub open spec fn enc_message(m: MessageView) -> Seq<u8> {
    match m {
        MessageView::Transaction(t) => seq![0u8] + enc_tx(t),
        MessageView::Text(s) => seq![1u8] + enc_text(s),
        MessageView::Block(b) => seq![2u8] + enc_block(b),
        MessageView::GetStatus => seq![3u8],
        MessageView::Status(id, h) => seq![4u8] + enc_text(id) + enc_u32(h),
        MessageView::GetBlocks(s, e) => seq![5u8] + enc_u32(s) + enc_u32(e),
        MessageView::Blocks(v) => seq![6u8] + enc_u64(v.len() as u64) + enc_block_list(v),
    }
}

/// Every length in a message fits its prefix.
pub open spec fn message_ok(m: MessageView) -> bool {
    match m {
        MessageView::Transaction(t) => tx_ok(t),
        MessageView::Text(s) => bytes_ok(encode_utf8(s)),
        MessageView::Block(b) => block_ok(b),
        MessageView::Status(id, _) => bytes_ok(encode_utf8(id)),
        MessageView::Blocks(v) => v.len() <= u64::MAX && forall|i: int| 0 <= i < v.len() ==> block_ok(#[trigger] v[i]),
        _ => true,
    }
}

/// Relies on std::str::from_utf8: it succeeds exactly on valid UTF-8, and the
/// text it gives is what the bytes encode.
#[verifier::external_body]
fn text_from_utf8(b: &[u8]) -> (r: Option<String>)
    ensures
        r is Some <==> valid_utf8(b@),
        r matches Some(s) ==> s@ == decode_utf8(b@),
{
    match std::str::from_utf8(b) {
        Ok(s) => Some(s.to_string()),
        Err(_) => None,
    }
}

fn write_text(out: &mut Vec<u8>, s: &String)
    ensures
        final(out)@ == old(out)@ + enc_text(s@),
        bytes_ok(encode_utf8(s@)),
{
    write_bytes(out, s.as_str().as_bytes());
}

fn parse_text(b: &[u8], pos: usize) -> (r: Option<(String, usize)>)
    requires
        pos <= b@.len(),
    ensures
        r matches Some((s, end)) ==> pos <= end <= b@.len() && at(b@, pos as int, enc_text(s@)) && end
            == pos + enc_text(s@).len() && bytes_ok(encode_utf8(s@)),
        forall|c: Seq<char>|
            bytes_ok(encode_utf8(c)) && at(b@, pos as int, #[trigger] enc_text(c)) ==> (r matches Some((s, end))
                && s@ == c),
{
    let (v, p) = match parse_bytes(b, pos) {
        Some(x) => x,
        None => return None,
    };
    match text_from_utf8(v.as_slice()) {
        Some(s) => Some((s, p)),
        None => None,
    }
}

/// A prefix of a list of blocks encodes to a prefix of the list's encoding.
proof fn lemma_block_list_prefix(b: Seq<u8>, pos: int, ms: Seq<BlockView>, k: int)
    requires
        0 <= k <= ms.len(),
        at(b, pos, enc_block_list(ms)),
    ensures
        at(b, pos, enc_block_list(ms.take(k))),
    decreases ms.len(),
{
    if k == ms.len() {
        assert(ms.take(k) =~= ms);
    } else {
        lemma_at_concat(b, pos, enc_block_list(ms.drop_last()), enc_block(ms.last()));
        lemma_block_list_prefix(b, pos, ms.drop_last(), k);
        assert(ms.drop_last().take(k) =~= ms.take(k));
    }
}

fn write_block_list(out: &mut Vec<u8>, blocks: &[Block])
    ensures
        final(out)@ == old(out)@ + enc_block_list(block_views(blocks@)),
        forall|j: int| 0 <= j < blocks@.len() ==> block_ok(#[trigger] block_views(blocks@)[j]),
{
    let mut i: usize = 0;
    while i < blocks.len()
        invariant
            i <= blocks@.len(),
            out@ == old(out)@ + enc_block_list(block_views(blocks@.take(i as int))),
            forall|j: int| 0 <= j < i ==> block_ok(#[trigger] block_views(blocks@)[j]),
        decreases blocks@.len() - i,
    {
        blocks[i].write(out);
        proof {
            let pre = block_views(blocks@.take(i + 1));
            assert(pre.drop_last() =~= block_views(blocks@.take(i as int)));
            assert(pre.last() == blocks@[i as int]@);
            assert(out@ =~= old(out)@ + enc_block_list(pre));
        }
        i += 1;
    }
    assert(blocks@.take(blocks@.len() as int) =~= blocks@);
}

/// Reads `n` blocks at `pos`.
fn parse_block_list(b: &[u8], pos: usize, n: u64) -> (r: Option<(Vec<Block>, usize)>)
    requires
        pos <= b@.len(),
    ensures
        r matches Some((v, end)) ==> pos <= end <= b@.len() && v@.len() == n && at(
            b@,
            pos as int,
            enc_block_list(block_views(v@)),
        ) && end == pos + enc_block_list(block_views(v@)).len() && forall|i: int|
            0 <= i < v@.len() ==> block_ok(#[trigger] block_views(v@)[i]),
        forall|ms: Seq<BlockView>|
            ms.len() == n && (forall|i: int| 0 <= i < ms.len() ==> block_ok(#[trigger] ms[i])) && at(
                b@,
                pos as int,
                #[trigger] enc_block_list(ms),
            ) ==> (r matches Some((v, end)) && block_views(v@) == ms),
{
    let ghost bs = b@;
    let mut out: Vec<Block> = Vec::new();
    let mut p: usize = pos;
    let mut i: u64 = 0;
    proof {
        assert(block_views(out@) =~= Seq::<BlockView>::empty());
        assert(bs.subrange(pos as int, pos as int) =~= Seq::<u8>::empty());
    }
    while i < n
        invariant
            bs == b@,
            pos <= p <= b@.len(),
            i <= n,
            out@.len() == i,
            at(bs, pos as int, enc_block_list(block_views(out@))),
            p == pos + enc_block_list(block_views(out@)).len(),
            forall|j: int| 0 <= j < out@.len() ==> block_ok(#[trigger] block_views(out@)[j]),
            forall|ms: Seq<BlockView>|
                ms.len() == n && (forall|j: int| 0 <= j < ms.len() ==> block_ok(#[trigger] ms[j])) && at(
                    bs,
                    pos as int,
                    #[trigger] enc_block_list(ms),
                ) ==> block_views(out@) == ms.take(i as int),
        decreases n - i,
    {
        let ghost before = block_views(out@);
        match parse_block(b, p) {
            None => {
                proof {
                    assert forall|ms: Seq<BlockView>|
                        ms.len() == n && (forall|j: int| 0 <= j < ms.len() ==> block_ok(#[trigger] ms[j]))
                            && at(bs, pos as int, #[trigger] enc_block_list(ms)) implies false by {
                        lemma_block_list_prefix(bs, pos as int, ms, i + 1);
                        let pre = ms.take(i + 1);
                        assert(pre.drop_last() =~= ms.take(i as int));
                        lemma_at_concat(bs, pos as int, enc_block_list(pre.drop_last()), enc_block(pre.last()));
                        assert(block_ok(ms[i as int]));
                    }
                }
                return None;
            },
            Some((x, p2)) => {
                out.push(x);
                proof {
                    let after = block_views(out@);
                    assert(after.drop_last() =~= before);
                    assert(after.last() == x@);
                    lemma_at_concat(bs, pos as int, enc_block_list(before), enc_block(x@));
                    assert forall|j: int| 0 <= j < out@.len() implies block_ok(#[trigger] block_views(out@)[j]) by {
                        if j < before.len() {
                            assert(block_views(out@)[j] == before[j]);
                        }
                    }
                    assert forall|ms: Seq<BlockView>|
                        ms.len() == n && (forall|j: int| 0 <= j < ms.len() ==> block_ok(#[trigger] ms[j]))
                            && at(bs, pos as int, #[trigger] enc_block_list(ms)) implies after == ms.take(
                        i + 1,
                    ) by {
                        lemma_block_list_prefix(bs, pos as int, ms, i + 1);
                        let pre = ms.take(i + 1);
                        assert(pre.drop_last() =~= ms.take(i as int));
                        lemma_at_concat(bs, pos as int, enc_block_list(pre.drop_last()), enc_block(pre.last()));
                        assert(block_ok(ms[i as int]));
                        assert(after =~= pre);
                    }
                }
                p = p2;
                i = i + 1;
            },
        }
    }
    proof {
        assert forall|ms: Seq<BlockView>|
            ms.len() == n && (forall|j: int| 0 <= j < ms.len() ==> block_ok(#[trigger] ms[j])) && at(
                bs,
                pos as int,
                #[trigger] enc_block_list(ms),
            ) implies block_views(out@) == ms by {
            assert(ms.take(n as int) =~= ms);
        }
    }
    Some((out, p))
}

/// An envelope between transports: who sent it, and the encoded message.
#[derive(Clone, Debug)]
pub struct RPC {
    pub from: String,
    pub data: Vec<u8>,
}

/// The tag byte of a message's kind.
pub open spec fn tag_of(m: MessageView) -> u8 {
    match m {
        MessageView::Transaction(_) => 0,
        MessageView::Text(_) => 1,
        MessageView::Block(_) => 2,
        MessageView::GetStatus => 3,
        MessageView::Status(_, _) => 4,
        MessageView::GetBlocks(_, _) => 5,
        MessageView::Blocks(_) => 6,
    }
}

/// What follows the tag byte.
pub open spec fn enc_payload(m: MessageView) -> Seq<u8> {
    match m {
        MessageView::Transaction(t) => enc_tx(t),
        MessageView::Text(s) => enc_text(s),
        MessageView::Block(b) => enc_block(b),
        MessageView::GetStatus => Seq::empty(),
        MessageView::Status(id, h) => enc_text(id) + enc_u32(h),
        MessageView::GetBlocks(s, e) => enc_u32(s) + enc_u32(e),
        MessageView::Blocks(v) => enc_u64(v.len() as u64) + enc_block_list(v),
    }
}

proof fn lemma_message_split(m: MessageView)
    ensures
        enc_message(m) == seq![tag_of(m)] + enc_payload(m),
{
    assert(enc_message(m) =~= seq![tag_of(m)] + enc_payload(m));
}

/// What a payload parser promises for the messages of one tag.
pub open spec fn payload_parsed(b: Seq<u8>, pos: int, tag: u8, r: Option<(Message, usize)>) -> bool {
    &&& r matches Some((x, end)) ==> tag_of(x@) == tag && pos <= end <= b.len() && at(b, pos, enc_payload(x@))
        && end == pos + enc_payload(x@).len() && message_ok(x@)
    &&& forall|m: MessageView| tag_of(m) == tag && message_ok(m) && at(b, pos, #[trigger] enc_payload(m)) ==> (r matches Some((
        x,
        end,
    )) && x@ == m)
}

fn parse_tx_payload(b: &[u8], pos: usize) -> (r: Option<(Message, usize)>)
    requires
        pos <= b@.len(),
    ensures
        payload_parsed(b@, pos as int, 0, r),
{
    match parse_tx(b, pos) {
        Some((t, p)) => Some((Message::Transaction(t), p)),
        None => None,
    }
}

fn parse_text_payload(b: &[u8], pos: usize) -> (r: Option<(Message, usize)>)
    requires
        pos <= b@.len(),
    ensures
        payload_parsed(b@, pos as int, 1, r),
{
    match parse_text(b, pos) {
        Some((s, p)) => Some((Message::Text(s), p)),
        None => None,
    }
}

fn parse_block_payload(b: &[u8], pos: usize) -> (r: Option<(Message, usize)>)
    requires
        pos <= b@.len(),
    ensures
        payload_parsed(b@, pos as int, 2, r),
{
    match parse_block(b, pos) {
        Some((x, p)) => Some((Message::Block(x), p)),
        None => None,
    }
}

fn parse_status_payload(b: &[u8], pos: usize) -> (r: Option<(Message, usize)>)
    requires
        pos <= b@.len(),
    ensures
        payload_parsed(b@, pos as int, 4, r),
{
    let ghost bs = b@;
    let ghost p = pos as int;
    proof {
        vstd::bytes::lemma_auto_spec_u32_to_from_le_bytes();
        assert forall|m: MessageView| tag_of(m) == 4 && message_ok(m) && at(bs, p, #[trigger] enc_payload(m)) implies
            (m matches MessageView::Status(c, h) && at(bs, p, enc_text(c)) && at(bs, p + enc_text(c).len(), enc_u32(h))) by {
            if let MessageView::Status(c, h) = m {
                lemma_at_concat(bs, p, enc_text(c), enc_u32(h));
            }
        }
    }
    let (id, p2) = match parse_text(b, pos) {
        Some(x) => x,
        None => return None,
    };
    let (height, p3) = match parse_u32(b, p2) {
        Some(x) => x,
        None => return None,
    };
    let ghost gid = id@;
    let x = Message::Status(Status { id, height });
    proof {
        lemma_at_concat(bs, p, enc_text(gid), enc_u32(height));
    }
    Some((x, p3))
}

fn parse_range_payload(b: &[u8], pos: usize) -> (r: Option<(Message, usize)>)
    requires
        pos <= b@.len(),
    ensures
        payload_parsed(b@, pos as int, 5, r),
{
    let ghost bs = b@;
    let ghost p = pos as int;
    proof {
        vstd::bytes::lemma_auto_spec_u32_to_from_le_bytes();
        assert forall|m: MessageView| tag_of(m) == 5 && message_ok(m) && at(bs, p, #[trigger] enc_payload(m)) implies
            (m matches MessageView::GetBlocks(s0, e0) && at(bs, p, enc_u32(s0)) && at(bs, p + 4, enc_u32(e0))) by {
            if let MessageView::GetBlocks(s0, e0) = m {
                lemma_at_concat(bs, p, enc_u32(s0), enc_u32(e0));
            }
        }
    }
    let (start, p2) = match parse_u32(b, pos) {
        Some(x) => x,
        None => return None,
    };
    let (end, p3) = match parse_u32(b, p2) {
        Some(x) => x,
        None => return None,
    };
    let x = Message::GetBlocks(std::ops::Range { start, end });
    proof {
        lemma_at_concat(bs, p, enc_u32(start), enc_u32(end));
    }
    Some((x, p3))
}

fn parse_blocks_payload(b: &[u8], pos: usize) -> (r: Option<(Message, usize)>)
    requires
        pos <= b@.len(),
    ensures
        payload_parsed(b@, pos as int, 6, r),
{
    let ghost bs = b@;
    let ghost p = pos as int;
    proof {
        vstd::bytes::lemma_auto_spec_u64_to_from_le_bytes();
        assert forall|m: MessageView| tag_of(m) == 6 && message_ok(m) && at(bs, p, #[trigger] enc_payload(m)) implies
            (m matches MessageView::Blocks(v) && at(bs, p, enc_u64(v.len() as u64)) && at(bs, p + 8, enc_block_list(v))) by {
            if let MessageView::Blocks(v) = m {
                lemma_at_concat(bs, p, enc_u64(v.len() as u64), enc_block_list(v));
            }
        }
    }
    let (n, p2) = match parse_u64(b, pos) {
        Some(x) => x,
        None => return None,
    };
    let (blocks, p3) = match parse_block_list(b, p2, n) {
        Some(x) => x,
        None => return None,
    };
    let ghost gv = block_views(blocks@);
    let x = Message::Blocks(blocks);
    proof {
        lemma_at_concat(bs, p, enc_u64(gv.len() as u64), enc_block_list(gv));
    }
    Some((x, p3))
}

/// Reads a message at `pos`.
pub fn parse_message(b: &[u8], pos: usize) -> (r: Option<(Message, usize)>)
    requires
        pos <= b@.len(),
    ensures
        r matches Some((x, end)) ==> pos <= end <= b@.len() && at(b@, pos as int, enc_message(x@))
            && end == pos + enc_message(x@).len() && message_ok(x@),
        forall|m: MessageView| message_ok(m) && at(b@, pos as int, #[trigger] enc_message(m)) ==> (r matches Some((
            x,
            end,
        )) && x@ == m),
{
    let ghost bs = b@;
    let ghost p = pos as int;
    proof {
        assert forall|m: MessageView| at(bs, p, #[trigger] enc_message(m)) implies at(bs, p, seq![tag_of(m)]) && at(
            bs,
            p + 1,
            enc_payload(m),
        ) by {
            lemma_message_split(m);
            lemma_at_concat(bs, p, seq![tag_of(m)], enc_payload(m));
        }
    }
    let (tag, p1) = match parse_u8(b, pos) {
        Some(x) => x,
        None => return None,
    };
    let r = if tag == 0 {
        parse_tx_payload(b, p1)
    } else if tag == 1 {
        parse_text_payload(b, p1)
    } else if tag == 2 {
        parse_block_payload(b, p1)
    } else if tag == 3 {
        proof {
            assert(bs.subrange(p + 1, p + 1) =~= Seq::<u8>::empty());
            assert forall|m: MessageView| tag_of(m) == 3 implies m == MessageView::GetStatus by {}
        }
        Some((Message::GetStatus, p1))
    } else if tag == 4 {
        parse_status_payload(b, p1)
    } else if tag == 5 {
        parse_range_payload(b, p1)
    } else if tag == 6 {
        parse_blocks_payload(b, p1)
    } else {
        None
    };
    proof {
        assert(payload_parsed(bs, p + 1, tag, r));
        if r is Some {
            let x = (r->0).0;
            lemma_message_split(x@);
            lemma_at_concat(bs, p, seq![tag_of(x@)], enc_payload(x@));
        }
        assert forall|m: MessageView| message_ok(m) && at(bs, p, #[trigger] enc_message(m)) implies (r matches Some((
            x,
            end,
        )) && x@ == m) by {
            lemma_message_split(m);
            lemma_at_concat(bs, p, seq![tag_of(m)], enc_payload(m));
            assert(tag_of(m) == tag);
        }
    }
    r
}

impl Message {
    /// Appends the encoding of this message to `out`.
    pub fn write(&self, out: &mut Vec<u8>)
        ensures
            final(out)@ == old(out)@ + enc_message(self@),
            message_ok(self@),
    {
        match self {
            Message::Transaction(t) => {
                out.push(0u8);
                t.write(out);
            },
            Message::Text(s) => {
                out.push(1u8);
                write_text(out, s);
            },
            Message::Block(b) => {
                out.push(2u8);
                b.write(out);
            },
            Message::GetStatus => {
                out.push(3u8);
            },
            Message::Status(s) => {
                out.push(4u8);
                write_text(out, &s.id);
                write_u32(out, s.height);
            },
            Message::GetBlocks(r) => {
                out.push(5u8);
                write_u32(out, r.start);
                write_u32(out, r.end);
            },
            Message::Blocks(v) => {
                out.push(6u8);
                write_u64(out, v.len() as u64);
                write_block_list(out, v.as_slice());
            },
        }
        assert(out@ =~= old(out)@ + enc_message(self@));
    }

    /// The encoded message.
    pub fn bytes(&self) -> (r: Vec<u8>)
        ensures
            r@ == enc_message(self@),
            message_ok(self@),
    {
        let mut out: Vec<u8> = Vec::new();
        self.write(&mut out);
        assert(out@ =~= enc_message(self@));
        out
    }

    /// Reads a message from exactly the bytes of its encoding. Decoding what
    /// `bytes` gives returns the same message.
    pub fn decode(data: &[u8]) -> (r: Result<Message, McError>)
        ensures
            r matches Ok(x) ==> enc_message(x@) == data@ && message_ok(x@),
            r matches Err(e) ==> e == McError::Undecodable,
            forall|m: MessageView| message_ok(m) && #[trigger] enc_message(m) == data@ ==> (r matches Ok(x)
                && x@ == m),
    {
        match parse_message(data, 0) {
            Some((x, end)) => {
                if end == data.len() {
                    proof {
                        assert(data@.subrange(0, end as int) =~= data@);
                    }
                    Ok(x)
                } else {
                    proof {
                        assert forall|m: MessageView| message_ok(m) && #[trigger] enc_message(m) == data@ implies false by {
                            assert(data@.subrange(0, data@.len() as int) =~= data@);
                        }
                    }
                    Err(McError::Undecodable)
                }
            },
            None => {
                proof {
                    assert forall|m: MessageView| message_ok(m) && #[trigger] enc_message(m) == data@ implies false by {
                        assert(data@.subrange(0, data@.len() as int) =~= data@);
                    }
                }
                Err(McError::Undecodable)
            },
        }
    }

    /// The message that an envelope carries.
    pub fn from_rpc(rpc: &RPC) -> (r: Result<Message, McError>)
        ensures
            r matches Ok(x) ==> enc_message(x@) == rpc.data@ && message_ok(x@),
            r matches Err(e) ==> e == McError::Undecodable,
            forall|m: MessageView| message_ok(m) && #[trigger] enc_message(m) == rpc.data@ ==> (r matches Ok(x)
                && x@ == m),
    {
        Message::decode(rpc.data.as_slice())
    }
}

proof fn lemma_text_unique(b: Seq<u8>, pos: int, x: Seq<char>, y: Seq<char>)
    requires
        bytes_ok(encode_utf8(x)),
        bytes_ok(encode_utf8(y)),
        at(b, pos, enc_text(x)),
        at(b, pos, enc_text(y)),
    ensures
        x == y,
{
    lemma_bytes_unique(b, pos, encode_utf8(x), encode_utf8(y));
    assert(decode_utf8(encode_utf8(x)) == x);
    assert(decode_utf8(encode_utf8(y)) == y);
}

proof fn lemma_block_list_unique(b: Seq<u8>, pos: int, x: Seq<BlockView>, y: Seq<BlockView>)
    requires
        x.len() == y.len(),
        forall|i: int| 0 <= i < x.len() ==> block_ok(#[trigger] x[i]),
        forall|i: int| 0 <= i < y.len() ==> block_ok(#[trigger] y[i]),
        at(b, pos, enc_block_list(x)),
        at(b, pos, enc_block_list(y)),
    ensures
        x == y,
    decreases x.len(),
{
    if x.len() > 0 {
        lemma_at_concat(b, pos, enc_block_list(x.drop_last()), enc_block(x.last()));
        lemma_at_concat(b, pos, enc_block_list(y.drop_last()), enc_block(y.last()));
        lemma_block_list_unique(b, pos, x.drop_last(), y.drop_last());
        assert(block_ok(x[x.len() - 1]));
        assert(block_ok(y[y.len() - 1]));
        lemma_block_unique(b, pos + enc_block_list(x.drop_last()).len(), x.last(), y.last());
        assert(x =~= x.drop_last().push(x.last()));
        assert(y =~= y.drop_last().push(y.last()));
    } else {
        assert(x =~= y);
    }
}

/// Decoding inverts encoding: the message that `decode` returns has the
/// input as its encoding, and only one message has a given encoding, so
/// decoding what `bytes` gives returns the message encoded.
pub proof fn lemma_message_round_trip(x: MessageView, y: MessageView)
    requires
        message_ok(x),
        message_ok(y),
        enc_message(y) == enc_message(x),
    ensures
        y == x,
{
    vstd::bytes::lemma_auto_spec_u32_to_from_le_bytes();
    vstd::bytes::lemma_auto_spec_u64_to_from_le_bytes();
    let b = enc_message(x);
    lemma_message_split(x);
    lemma_message_split(y);
    assert(b[0] == tag_of(x));
    assert(b[0] == tag_of(y));
    assert(b.subrange(0, b.len() as int) =~= b);
    lemma_at_concat(b, 0, seq![tag_of(x)], enc_payload(x));
    lemma_at_concat(b, 0, seq![tag_of(y)], enc_payload(y));
    match (x, y) {
        (MessageView::Transaction(s), MessageView::Transaction(t)) => {
            lemma_tx_unique(b, 1, s, t);
        },
        (MessageView::Text(s), MessageView::Text(t)) => {
            lemma_text_unique(b, 1, s, t);
        },
        (MessageView::Block(s), MessageView::Block(t)) => {
            lemma_block_unique(b, 1, s, t);
        },
        (MessageView::Status(i, h), MessageView::Status(j, k)) => {
            lemma_at_concat(b, 1, enc_text(i), enc_u32(h));
            lemma_at_concat(b, 1, enc_text(j), enc_u32(k));
            lemma_text_unique(b, 1, i, j);
            lemma_u32_unique(b, 1 + enc_text(i).len() as int, h, k);
        },
        (MessageView::GetBlocks(s0, e0), MessageView::GetBlocks(s1, e1)) => {
            lemma_at_concat(b, 1, enc_u32(s0), enc_u32(e0));
            lemma_at_concat(b, 1, enc_u32(s1), enc_u32(e1));
            lemma_u32_unique(b, 1, s0, s1);
            lemma_u32_unique(b, 5, e0, e1);
        },
        (MessageView::Blocks(v), MessageView::Blocks(w)) => {
            lemma_at_concat(b, 1, enc_u64(v.len() as u64), enc_block_list(v));
            lemma_at_concat(b, 1, enc_u64(w.len() as u64), enc_block_list(w));
            lemma_u64_unique(b, 1, v.len() as u64, w.len() as u64);
            lemma_block_list_unique(b, 9, v, w);
        },
        _ => {},
    }
}

} // verus!
