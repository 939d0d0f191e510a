//! The wire parser: reads a request head out of the bytes received so far.

use vstd::prelude::*;
use crate::bytes::{append, find_from, occurs_at};
use crate::error::ProtocolError;
use crate::request::{
    indexed, record_header_indices, resolve_table, slot_indexes, table_within, HeaderIndices, Span,
};

verus! {

/// The size of the receive buffer that a parser has unless told otherwise.
pub const HEAD_BUFFER_SIZE: usize = 2048;

/// The number of header slots that a parser has unless told otherwise.
pub const MAX_HEADERS: u16 = 100;

/// A header as the head parser reports it.
pub struct RawHeader<'a> {
    pub name: &'a [u8],
    pub value: &'a [u8],
}

/// A complete head as the head parser reports it.
pub struct RawHead<'a> {
    pub method: Option<&'a [u8]>,
    pub target: Option<&'a [u8]>,
    pub headers: Vec<RawHeader<'a>>,
    pub body_start: usize,
}

/// What one pass of the head parser found.
pub enum Parsed<'a> {
    Complete(RawHead<'a>),
    Partial,
}

/// The content of a reported header.
pub struct HeaderModel {
    pub name: Seq<u8>,
    pub value: Seq<u8>,
}

/// The content of a reported head.
pub struct HeadModel {
    pub method: Option<Seq<u8>>,
    pub target: Option<Seq<u8>>,
    pub headers: Seq<HeaderModel>,
    pub body_start: nat,
}

/// The outcome of one pass of the head parser.
pub enum ParseModel {
    Complete(HeadModel),
    Partial,
    Malformed,
}

impl<'a> View for RawHeader<'a> {
    type V = HeaderModel;

    open spec fn view(&self) -> HeaderModel {
        HeaderModel { name: self.name@, value: self.value@ }
    }
}

/// The contents of a list of reported headers.
pub open spec fn header_models(headers: Seq<RawHeader<'_>>) -> Seq<HeaderModel> {
    Seq::new(headers.len(), |i: int| headers[i]@)
}

/// The content of a part that may be missing.
pub open spec fn bytes_model(bytes: Option<&[u8]>) -> Option<Seq<u8>> {
    match bytes {
        Some(b) => Some(b@),
        None => None,
    }
}

impl<'a> View for RawHead<'a> {
    type V = HeadModel;

    open spec fn view(&self) -> HeadModel {
        HeadModel {
            method: bytes_model(self.method),
            target: bytes_model(self.target),
            headers: header_models(self.headers@),
            body_start: self.body_start as nat,
        }
    }
}

impl<'a> View for Parsed<'a> {
    type V = ParseModel;

    open spec fn view(&self) -> ParseModel {
        match self {
            Parsed::Complete(head) => ParseModel::Complete(head@),
            Parsed::Partial => ParseModel::Partial,
        }
    }
}

/// What `httparse::Request::parse` makes of `bytes` when it is given
/// `max_headers` header slots.
pub uninterp spec fn httparse_request(bytes: Seq<u8>, max_headers: nat) -> ParseModel;

/// Runs `httparse::Request::parse` on `buf` with `max_headers` empty header
/// slots and hands back what it found, every string as its bytes.
///
/// Trusted: the result is a function of the bytes and the slot count; a
/// complete head ends within `buf` and holds no more headers than slots.
#[verifier::external_body]
pub(crate) fn parse_request<'a>(buf: &'a [u8], max_headers: u16) -> (r: Result<
    Parsed<'a>,
    httparse::Error,
>)
    ensures
        match r {
            Ok(parsed) => httparse_request(buf@, max_headers as nat) == parsed@,
            Err(_) => httparse_request(buf@, max_headers as nat) is Malformed,
        },
        r matches Ok(Parsed::Complete(head)) ==> head.body_start <= buf@.len()
            && head.headers@.len() <= max_headers,
{
    let mut slots = vec![httparse::EMPTY_HEADER; max_headers as usize];
    let mut request = httparse::Request::new(&mut slots);
    Ok(match request.parse(buf)? {
        httparse::Status::Partial => Parsed::Partial,
        httparse::Status::Complete(body_start) => Parsed::Complete(RawHead {
            method: request.method.map(str::as_bytes),
            target: request.path.map(str::as_bytes),
            headers: request.headers.iter().map(|h| RawHeader { name: h.name.as_bytes(), value: h.value }).collect(),
            body_start,
        }),
    })
}

/// The index of a complete head: where in the receive buffer its parts lie.
#[derive(Debug)]
pub struct Head {
    /// The method token.
    pub method: Span,
    /// The raw request target.
    pub target: Span,
    /// The header index table, in wire order.
    pub headers: Vec<HeaderIndices>,
    /// Where the head ends and the body starts.
    pub body_start: usize,
}

/// `method`, `target` and `table` index the parts of `model` in `hay`, in
/// wire order.
pub open spec fn placed(
    hay: Seq<u8>,
    model: HeadModel,
    method: Span,
    target: Span,
    table: Seq<HeaderIndices>,
) -> bool {
    &&& method.within(hay.len())
    &&& target.within(hay.len())
    &&& model.method == Some(method.of(hay))
    &&& model.target == Some(target.of(hay))
    &&& method.end <= target.start
    &&& indexed(hay, target.end as int, model.headers, table)
}

/// The parts of `model` can be indexed in `hay`.
pub open spec fn placeable(hay: Seq<u8>, model: HeadModel) -> bool {
    exists|method: Span, target: Span, table: Seq<HeaderIndices>|
        placed(hay, model, method, target, table)
}

/// Why a reported head cannot be indexed in `buf`, if it cannot.
pub open spec fn index_fault(buf: Seq<u8>, model: HeadModel, max_headers: nat) -> Option<
    ProtocolError,
> {
    if model.headers.len() > max_headers {
        Some(ProtocolError::TooManyHeaders)
    } else if model.target is None {
        Some(ProtocolError::InvalidUrl)
    } else if model.method is None {
        Some(ProtocolError::InvalidMethod)
    } else if model.body_start > buf.len() || !placeable(
        buf.take(model.body_start as int),
        model,
    ) {
        Some(ProtocolError::HeadIndex)
    } else {
        None
    }
}

impl Head {
    /// Every range lies in the head, and the head in the first `len` bytes.
    pub open spec fn wf(&self, len: nat) -> bool {
        &&& self.body_start <= len
        &&& self.method.within(self.body_start as nat)
        &&& self.target.within(self.body_start as nat)
        &&& table_within(self.headers@, self.body_start as nat)
    }

    /// The index resolves, over the head's bytes in `buf`, to `model`.
    pub open spec fn indexes(&self, buf: Seq<u8>, model: HeadModel) -> bool {
        &&& self.body_start == model.body_start
        &&& self.body_start <= buf.len()
        &&& placed(buf.take(self.body_start as int), model, self.method, self.target, self.headers@)
    }

    /// What the index resolves to over `buf`.
    pub open spec fn resolve(&self, buf: Seq<u8>) -> HeadModel {
        HeadModel {
            method: Some(self.method.of(buf)),
            target: Some(self.target.of(buf)),
            headers: resolve_table(self.headers@, buf),
            body_start: self.body_start as nat,
        }
    }
}

/// A range within the first `n` bytes covers the same bytes in the whole
/// buffer as in its first `n` bytes.
pub proof fn lemma_span_of_prefix(span: Span, buf: Seq<u8>, n: int)
    requires
        0 <= n <= buf.len(),
        span.within(n as nat),
    ensures
        span.of(buf.take(n)) == span.of(buf),
{
    assert(span.of(buf.take(n)) =~= span.of(buf));
}

/// A table that indexes headers from `later` on also indexes them from any
/// earlier point.
pub proof fn lemma_indexed_from_earlier(
    hay: Seq<u8>,
    earlier: int,
    later: int,
    headers: Seq<HeaderModel>,
    table: Seq<HeaderIndices>,
)
    requires
        earlier <= later,
        indexed(hay, later, headers, table),
    ensures
        indexed(hay, earlier, headers, table),
{
    assert forall|i: int| 0 <= i < table.len() implies #[trigger] slot_indexes(
        hay,
        earlier,
        headers,
        table,
        i,
    ) by {
        assert(slot_indexes(hay, later, headers, table, i));
    }
}

/// An index that resolves to `model` is well formed and resolves to it over
/// the whole buffer.
pub proof fn lemma_indexes_resolves(head: Head, buf: Seq<u8>, model: HeadModel)
    requires
        head.indexes(buf, model),
    ensures
        head.wf(buf.len()),
        head.resolve(buf) == model,
{
    let n = head.body_start as int;
    let hay = buf.take(n);
    lemma_span_of_prefix(head.method, buf, n);
    lemma_span_of_prefix(head.target, buf, n);
    assert forall|i: int| 0 <= i < head.headers@.len() implies (#[trigger] head.headers@[i]).name.within(
        n as nat,
    ) && head.headers@[i].value.within(n as nat) && head.headers@[i].name.of(buf)
        == model.headers[i].name && head.headers@[i].value.of(buf) == model.headers[i].value by {
        assert(slot_indexes(hay, head.target.end as int, model.headers, head.headers@, i));
        lemma_span_of_prefix(head.headers@[i].name, buf, n);
        lemma_span_of_prefix(head.headers@[i].value, buf, n);
    }
    assert(head.resolve(buf).headers =~= model.headers);
}

/// Indexes a head that the parser reported for `buf`: finds each reported
/// part in the head's bytes, in wire order. Fails exactly as `index_fault`
/// says.
pub fn index_head(buf: &[u8], raw: &RawHead<'_>, max_headers: u16) -> (r: Result<
    Head,
    ProtocolError,
>)
    ensures
        match r {
            Ok(head) => index_fault(buf@, raw@, max_headers as nat) is None && head.indexes(
                buf@,
                raw@,
            ),
            Err(e) => index_fault(buf@, raw@, max_headers as nat) == Some(e),
        },
{
    if raw.headers.len() > max_headers as usize {
        return Err(ProtocolError::TooManyHeaders);
    }
    let target = match raw.target {
        Some(target) => target,
        None => {
            return Err(ProtocolError::InvalidUrl);
        },
    };
    let method = match raw.method {
        Some(method) => method,
        None => {
            return Err(ProtocolError::InvalidMethod);
        },
    };
    if raw.body_start > buf.len() {
        return Err(ProtocolError::HeadIndex);
    }
    let hay = vstd::slice::slice_subrange(buf, 0, raw.body_start);
    assert(hay@ == buf@.take(raw.body_start as int));
    let method_start = match find_from(hay, method, 0) {
        Some(at) => at,
        None => {
            assert forall|m: Span, t: Span, table: Seq<HeaderIndices>|
                !placed(hay@, raw@, m, t, table) by {
                if placed(hay@, raw@, m, t, table) {
                    assert(occurs_at(hay@, method@, m.start as int));
                }
            }
            return Err(ProtocolError::HeadIndex);
        },
    };
    assert(method_start + method@.len() <= raw.body_start);
    let method_end: usize = method_start + method.len();
    let target_start = match find_from(hay, target, method_end) {
        Some(at) => at,
        None => {
            assert forall|m: Span, t: Span, table: Seq<HeaderIndices>|
                !placed(hay@, raw@, m, t, table) by {
                if placed(hay@, raw@, m, t, table) {
                    assert(occurs_at(hay@, method@, m.start as int));
                    assert(occurs_at(hay@, target@, t.start as int));
                }
            }
            return Err(ProtocolError::HeadIndex);
        },
    };
    assert(target_start + target@.len() <= raw.body_start);
    let target_end: usize = target_start + target.len();
    let headers = match record_header_indices(hay, target_end, &raw.headers) {
        Some(table) => table,
        None => {
            assert forall|m: Span, t: Span, table: Seq<HeaderIndices>|
                !placed(hay@, raw@, m, t, table) by {
                if placed(hay@, raw@, m, t, table) {
                    assert(occurs_at(hay@, method@, m.start as int));
                    assert(occurs_at(hay@, target@, t.start as int));
                    lemma_indexed_from_earlier(
                        hay@,
                        target_end as int,
                        t.end as int,
                        raw@.headers,
                        table,
                    );
                }
            }
            return Err(ProtocolError::HeadIndex);
        },
    };
    let head = Head {
        method: Span { start: method_start, end: method_end },
        target: Span { start: target_start, end: target_end },
        headers,
        body_start: raw.body_start,
    };
    assert(head.method.of(hay@) =~= method@);
    assert(head.target.of(hay@) =~= target@);
    assert(placed(hay@, raw@, head.method, head.target, head.headers@));
    Ok(head)
}

/// A complete head together with the buffer that it indexes.
pub struct ReceivedHead {
    buf: Vec<u8>,
    head: Head,
}

impl View for ReceivedHead {
    type V = HeadModel;

    /// The head's content: what its index resolves to over the buffer.
    open spec fn view(&self) -> HeadModel {
        self.index().resolve(self.received())
    }
}

impl ReceivedHead {
    #[verifier::type_invariant]
    spec fn inv(&self) -> bool {
        self.head.wf(self.buf@.len())
    }

    /// All bytes received, the head first.
    pub closed spec fn received(&self) -> Seq<u8> {
        self.buf@
    }

    /// The index of the head.
    pub closed spec fn index(&self) -> Head {
        self.head
    }

    /// All bytes received, the head first.
    pub fn bytes(&self) -> (r: &[u8])
        ensures
            r@ == self.received(),
    {
        self.buf.as_slice()
    }

    /// The index of the head; every range of it lies in the buffer.
    pub fn head(&self) -> (r: &Head)
        ensures
            *r == self.index(),
            r.wf(self.received().len()),
    {
        proof {
            use_type_invariant(self);
        }
        &self.head
    }

    /// The bytes received after the head: the start of the body.
    pub fn leftover(&self) -> (r: &[u8])
        ensures
            r@ == self.received().skip(self.index().body_start as int),
    {
        proof {
            use_type_invariant(self);
        }
        let bytes = self.buf.as_slice();
        vstd::slice::slice_subrange(bytes, self.head.body_start, bytes.len())
    }
}

/// A parser that is still waiting for the rest of a head.
pub struct WireParser {
    buf: Vec<u8>,
    capacity: usize,
    max_headers: u16,
}

/// What feeding a chunk to a parser led to.
pub enum Step {
    /// The transport is closed; there is nothing to answer.
    Closed,
    /// The head is not complete yet; read on.
    Partial(WireParser),
    /// The head is complete.
    Complete(ReceivedHead),
    /// The bytes are no acceptable head.
    Failed(ProtocolError),
}

/// The content of a `Step`.
pub enum StepModel {
    Closed,
    /// The bytes received so far.
    Partial(Seq<u8>),
    /// The bytes received and the head they start with.
    Complete(Seq<u8>, HeadModel),
    /// The head parser refused the bytes.
    Malformed,
    /// Any other fault.
    Failed(ProtocolError),
}

/// What a parser that holds `received`, with room for `capacity` bytes and
/// `max_headers` headers, makes of a further `chunk`.
pub open spec fn step(received: Seq<u8>, capacity: nat, max_headers: nat, chunk: Seq<u8>) -> StepModel {
    let bytes = received + chunk;
    if chunk.len() == 0 {
        StepModel::Closed
    } else {
        match httparse_request(bytes, max_headers) {
            ParseModel::Malformed => StepModel::Malformed,
            ParseModel::Partial => if bytes.len() >= capacity {
                StepModel::Failed(ProtocolError::HeadTooLarge)
            } else {
                StepModel::Partial(bytes)
            },
            ParseModel::Complete(model) => match index_fault(bytes, model, max_headers) {
                Some(e) => StepModel::Failed(e),
                None => StepModel::Complete(bytes, model),
            },
        }
    }
}

impl Step {
    /// The content of the step. The error that the head parser gave is not
    /// part of it.
    pub open spec fn model(&self) -> StepModel {
        match self {
            Step::Closed => StepModel::Closed,
            Step::Partial(parser) => StepModel::Partial(parser.received()),
            Step::Complete(head) => StepModel::Complete(head.received(), head@),
            Step::Failed(ProtocolError::Parser(_)) => StepModel::Malformed,
            Step::Failed(e) => StepModel::Failed(*e),
        }
    }
}

impl WireParser {
    #[verifier::type_invariant]
    spec fn inv(&self) -> bool {
        self.buf@.len() <= self.capacity
    }

    /// The bytes received so far.
    pub closed spec fn received(&self) -> Seq<u8> {
        self.buf@
    }

    /// The number of bytes that the buffer can hold.
    pub closed spec fn capacity(&self) -> nat {
        self.capacity as nat
    }

    /// The number of header slots.
    pub closed spec fn max_headers(&self) -> nat {
        self.max_headers as nat
    }

    /// A parser with an empty buffer of `HEAD_BUFFER_SIZE` bytes and
    /// `MAX_HEADERS` header slots.
    pub fn new() -> (r: Self)
        ensures
            r.received() == Seq::<u8>::empty(),
            r.capacity() == HEAD_BUFFER_SIZE,
            r.max_headers() == MAX_HEADERS,
    {
        WireParser { buf: Vec::new(), capacity: HEAD_BUFFER_SIZE, max_headers: MAX_HEADERS }
    }

    /// A parser with an empty buffer of `capacity` bytes and `max_headers`
    /// header slots.
    pub fn with_limits(capacity: usize, max_headers: u16) -> (r: Self)
        ensures
            r.received() == Seq::<u8>::empty(),
            r.capacity() == capacity,
            r.max_headers() == max_headers,
    {
        WireParser { buf: Vec::new(), capacity, max_headers }
    }

    /// The bytes received so far.
    pub fn bytes(&self) -> (r: &[u8])
        ensures
            r@ == self.received(),
    {
        self.buf.as_slice()
    }

    /// How many more bytes the buffer can take: the most that the next read
    /// may deliver.
    pub fn room(&self) -> (r: usize)
        ensures
            r == self.capacity() - self.received().len(),
    {
        proof {
            use_type_invariant(self);
        }
        self.capacity - self.buf.len()
    }

    /// Takes the chunk that one read delivered and parses the bytes received
    /// so far. An empty chunk means that the transport is closed. A head that
    /// is still partial when the buffer is full is a `HeadTooLarge` fault.
    pub fn feed(self, chunk: &[u8]) -> (r: Step)
        requires
            chunk@.len() <= self.capacity() - self.received().len(),
        ensures
            r.model() == step(self.received(), self.capacity(), self.max_headers(), chunk@),
            r matches Step::Partial(parser) ==> parser.capacity() == self.capacity()
                && parser.max_headers() == self.max_headers(),
            r matches Step::Complete(head) ==> head.index().indexes(head.received(), head@),
    {
        proof {
            use_type_invariant(&self);
        }
        if chunk.len() == 0 {
            return Step::Closed;
        }
        let capacity = self.capacity;
        let max_headers = self.max_headers;
        let mut buf = self.buf;
        append(&mut buf, chunk);
        let indexed = match parse_request(buf.as_slice(), max_headers) {
            Err(e) => {
                return Step::Failed(ProtocolError::Parser(e));
            },
            Ok(Parsed::Partial) => {
                if buf.len() >= capacity {
                    return Step::Failed(ProtocolError::HeadTooLarge);
                }
                return Step::Partial(WireParser { buf, capacity, max_headers });
            },
            Ok(Parsed::Complete(raw)) => {
                let indexed = index_head(buf.as_slice(), &raw, max_headers);
                proof {
                    if indexed is Ok {
                        lemma_indexes_resolves(indexed->Ok_0, buf@, raw@);
                    }
                }
                indexed
            },
        };
        match indexed {
            Ok(head) => Step::Complete(ReceivedHead { buf, head }),
            Err(e) => Step::Failed(e),
        }
    }
}

/// The bytes of `chunks`, one after the other.
pub open spec fn concat(chunks: Seq<Seq<u8>>) -> Seq<u8>
    decreases chunks.len(),
{
    if chunks.len() == 0 {
        Seq::empty()
    } else {
        chunks[0] + concat(chunks.drop_first())
    }
}

/// What a parser that holds `received` comes to when the transport
/// delivers `chunks`, one read each: the first step that ends the wait for
/// the head, or the state of waiting when the chunks are used up.
pub open spec fn deliver(
    received: Seq<u8>,
    capacity: nat,
    max_headers: nat,
    chunks: Seq<Seq<u8>>,
) -> StepModel
    decreases chunks.len(),
{
    if chunks.len() == 0 {
        StepModel::Partial(received)
    } else {
        match step(received, capacity, max_headers, chunks[0]) {
            StepModel::Partial(bytes) => deliver(bytes, capacity, max_headers, chunks.drop_first()),
            other => other,
        }
    }
}

/// `bytes` start with a request that the head parser takes as a stream: it
/// reports the head `head` for them, can be indexed, calls every proper
/// prefix of the head partial, and reports the same head whatever follows
/// the head's last byte.
pub open spec fn streams_head(bytes: Seq<u8>, max_headers: nat, head: HeadModel) -> bool {
    &&& bytes.len() > 0
    &&& httparse_request(bytes, max_headers) == ParseModel::Complete(head)
    &&& index_fault(bytes, head, max_headers) is None
    &&& forall|n: int|
        0 < n < head.body_start && n <= bytes.len() ==> #[trigger] httparse_request(
            bytes.take(n),
            max_headers,
        ) is Partial
    &&& forall|n: int|
        head.body_start <= n <= bytes.len() && 0 < n ==> #[trigger] httparse_request(
            bytes.take(n),
            max_headers,
        ) == ParseModel::Complete(head)
}

/// The head of `bytes` can be indexed in every prefix of `bytes` that holds
/// the whole head.
pub proof fn lemma_index_fault_of_prefix(bytes: Seq<u8>, n: int, head: HeadModel, max_headers: nat)
    requires
        index_fault(bytes, head, max_headers) is None,
        head.body_start <= n <= bytes.len(),
    ensures
        index_fault(bytes.take(n), head, max_headers) is None,
{
    assert(bytes.take(n).take(head.body_start as int) =~= bytes.take(head.body_start as int));
}

/// Short reads: once `bytes.take(at)` has been received without completing
/// the head, delivering the rest of `bytes` in any chunks ends with the head
/// of `bytes`, over a prefix of `bytes`.
pub proof fn lemma_deliver_rest(
    bytes: Seq<u8>,
    capacity: nat,
    max_headers: nat,
    head: HeadModel,
    at: int,
    chunks: Seq<Seq<u8>>,
)
    requires
        streams_head(bytes, max_headers, head),
        bytes.len() <= capacity,
        0 <= at < bytes.len(),
        at == 0 || at < head.body_start,
        forall|i: int| 0 <= i < chunks.len() ==> (#[trigger] chunks[i]).len() > 0,
        concat(chunks) == bytes.skip(at),
    ensures
        deliver(bytes.take(at), capacity, max_headers, chunks) matches StepModel::Complete(got, h)
            && h == head && got.len() >= head.body_start && got.len() <= bytes.len() && got
            == bytes.take(got.len() as int),
    decreases chunks.len(),
{
    if chunks.len() == 0 {
        assert(concat(chunks).len() == 0);
    } else {
        let chunk = chunks[0];
        let rest = chunks.drop_first();
        let next = at + chunk.len();
        assert(concat(chunks) == chunk + concat(rest));
        assert(next <= bytes.len()) by {
            assert(concat(chunks).len() == chunk.len() + concat(rest).len());
        }
        assert(bytes.take(at) + chunk =~= bytes.take(next)) by {
            assert forall|i: int| at <= i < next implies bytes[i] == chunk[i - at] by {
                assert(bytes.skip(at)[i - at] == bytes[i]);
                assert((chunk + concat(rest))[i - at] == chunk[i - at]);
            }
        }
        assert(concat(rest) =~= bytes.skip(next)) by {
            assert forall|i: int| 0 <= i < concat(rest).len() implies concat(rest)[i] == bytes[next
                + i] by {
                assert(bytes.skip(at)[chunk.len() + i] == bytes[next + i]);
                assert((chunk + concat(rest))[chunk.len() + i] == concat(rest)[i]);
            }
            assert(concat(rest).len() == bytes.len() - next);
        }
        if next < head.body_start {
            assert(httparse_request(bytes.take(next), max_headers) is Partial);
            assert forall|i: int| 0 <= i < rest.len() implies (#[trigger] rest[i]).len() > 0 by {
                assert(rest[i] == chunks[i + 1]);
            }
            lemma_deliver_rest(bytes, capacity, max_headers, head, next, rest);
        } else {
            assert(httparse_request(bytes.take(next), max_headers) == ParseModel::Complete(head));
            lemma_index_fault_of_prefix(bytes, next, head, max_headers);
        }
    }
}

/// Short reads give what one read gives: however the transport splits a
/// request that fits the buffer into non-empty chunks, the parser ends with
/// the same head (method, target, headers and body offset) as when all the
/// bytes come in one read. What it has received by then is the part of the
/// bytes that was delivered up to the read that completed the head.
pub proof fn lemma_short_reads_agree(
    bytes: Seq<u8>,
    capacity: nat,
    max_headers: nat,
    head: HeadModel,
    chunks: Seq<Seq<u8>>,
)
    requires
        streams_head(bytes, max_headers, head),
        bytes.len() <= capacity,
        forall|i: int| 0 <= i < chunks.len() ==> (#[trigger] chunks[i]).len() > 0,
        concat(chunks) == bytes,
    ensures
        step(Seq::empty(), capacity, max_headers, bytes) == StepModel::Complete(bytes, head),
        deliver(Seq::empty(), capacity, max_headers, chunks) matches StepModel::Complete(got, h)
            && h == head && got.len() >= head.body_start && got.len() <= bytes.len() && got
            == bytes.take(got.len() as int),
{
    assert(Seq::<u8>::empty() + bytes =~= bytes);
    assert(bytes.take(0) =~= Seq::<u8>::empty());
    assert(bytes.skip(0) =~= bytes);
    lemma_deliver_rest(bytes, capacity, max_headers, head, 0, chunks);
}

} // verus!
