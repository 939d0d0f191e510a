//! Zero-copy views of a request: index ranges into the receive buffer and
//! the views that resolve them.

use vstd::prelude::*;
use vstd::string::*;
use crate::bytes::{eq_ignore_ascii_case, eq_ignore_case, find_from, occurs_at};
use crate::error::ProtocolError;
use crate::method::{method_of, Method};
use crate::parse::{parse_usize, path_of, query_of, usize_value, valid_path, PathAndQuery};
use crate::wire::{header_models, HeadModel, HeaderModel, RawHeader, ReceivedHead};

verus! {

/// A half-open byte range `start..end` of the receive buffer.
#[derive(Clone, Copy, Debug, PartialEq, Eq)]
pub struct Span {
    pub start: usize,
    pub end: usize,
}

impl Span {
    /// The range is ordered and ends within `len` bytes.
    pub open spec fn within(self, len: nat) -> bool {
        self.start <= self.end && self.end <= len
    }

    /// The bytes of `buf` that the range covers.
    pub open spec fn of(self, buf: Seq<u8>) -> Seq<u8> {
        buf.subrange(self.start as int, self.end as int)
    }

    /// Resolves the range against the buffer it indexes.
    pub fn slice<'a>(&self, buf: &'a [u8]) -> (r: &'a [u8])
        requires
            self.within(buf@.len()),
        ensures
            r@ == self.of(buf@),
    {
        vstd::slice::slice_subrange(buf, self.start, self.end)
    }
}

/// One slot of the header index table: where a header's name and value lie.
#[derive(Clone, Copy, Debug, PartialEq, Eq)]
pub struct HeaderIndices {
    pub name: Span,
    pub value: Span,
}

/// The slot at `i` lies in `hay`, after the slot before it (or after `from`),
/// and resolves to the header at `i`.
pub open spec fn slot_indexes(
    hay: Seq<u8>,
    from: int,
    headers: Seq<HeaderModel>,
    table: Seq<HeaderIndices>,
    i: int,
) -> bool {
    let slot = table[i];
    let header = headers[i];
    &&& slot.name.within(hay.len())
    &&& slot.value.within(hay.len())
    &&& slot.name.of(hay) == header.name
    &&& slot.value.of(hay) == header.value
    &&& slot.name.end <= slot.value.start
    &&& (if i == 0 {
        from
    } else {
        table[i - 1].value.end as int
    }) <= slot.name.start
}

/// `table` indexes `headers` in `hay`: one slot per header, in wire order
/// from `from` on, each resolving to its header's name and value.
pub open spec fn indexed(
    hay: Seq<u8>,
    from: int,
    headers: Seq<HeaderModel>,
    table: Seq<HeaderIndices>,
) -> bool {
    &&& table.len() == headers.len()
    &&& forall|i: int| 0 <= i < table.len() ==> #[trigger] slot_indexes(hay, from, headers, table, i)
}

/// Builds the header index table for `headers` over `bytes`, searching from
/// `from`. Gives `None` exactly when no table indexes the headers there.
pub fn record_header_indices(bytes: &[u8], from: usize, headers: &Vec<RawHeader<'_>>) -> (r: Option<
    Vec<HeaderIndices>,
>)
    ensures
        match r {
            Some(table) => indexed(bytes@, from as int, header_models(headers@), table@),
            None => forall|t: Seq<HeaderIndices>|
                !indexed(bytes@, from as int, header_models(headers@), t),
        },
{
    let ghost models = header_models(headers@);
    let mut table: Vec<HeaderIndices> = Vec::new();
    let mut cursor: usize = from;
    let mut i: usize = 0;
    assert forall|t: Seq<HeaderIndices>| #[trigger]
        indexed(bytes@, from as int, models, t) && 0 < headers.len() implies from
        <= t[0].name.start by {
        assert(slot_indexes(bytes@, from as int, models, t, 0));
    }
    while i < headers.len()
        invariant
            i <= headers.len(),
            table.len() == i,
            models == header_models(headers@),
            models.len() == headers.len(),
            cursor == (if i == 0 {
                from
            } else {
                table@[i - 1].value.end
            }),
            indexed(bytes@, from as int, models.take(i as int), table@),
            forall|t: Seq<HeaderIndices>| #[trigger]
                indexed(bytes@, from as int, models, t) && i < headers.len() ==> cursor
                    <= t[i as int].name.start,
        decreases headers.len() - i,
    {
        let header = &headers[i];
        let total: usize = bytes.len();
        assert(models[i as int] == header@);
        let name_start = match find_from(bytes, header.name, cursor) {
            Some(at) => at,
            None => {
                assert forall|t: Seq<HeaderIndices>|
                    !indexed(bytes@, from as int, models, t) by {
                    if indexed(bytes@, from as int, models, t) {
                        assert(slot_indexes(bytes@, from as int, models, t, i as int));
                        assert(occurs_at(bytes@, header.name@, t[i as int].name.start as int));
                    }
                }
                return None;
            },
        };
        assert(name_start + header.name@.len() <= total);
        let name_end: usize = name_start + header.name.len();
        let value_start = match find_from(bytes, header.value, name_end) {
            Some(at) => at,
            None => {
                assert forall|t: Seq<HeaderIndices>|
                    !indexed(bytes@, from as int, models, t) by {
                    if indexed(bytes@, from as int, models, t) {
                        assert(slot_indexes(bytes@, from as int, models, t, i as int));
                        assert(occurs_at(bytes@, header.name@, t[i as int].name.start as int));
                        assert(occurs_at(bytes@, header.value@, t[i as int].value.start as int));
                    }
                }
                return None;
            },
        };
        assert(value_start + header.value@.len() <= total);
        let value_end: usize = value_start + header.value.len();
        let slot = HeaderIndices {
            name: Span { start: name_start, end: name_end },
            value: Span { start: value_start, end: value_end },
        };
        proof {
            let next = table@.push(slot);
            assert forall|k: int| 0 <= k < next.len() implies #[trigger] slot_indexes(
                bytes@,
                from as int,
                models.take(i + 1),
                next,
                k,
            ) by {
                if k < i {
                    assert(slot_indexes(bytes@, from as int, models.take(i as int), table@, k));
                }
            }
            assert forall|t: Seq<HeaderIndices>| #[trigger]
                indexed(bytes@, from as int, models, t) && i + 1 < headers.len() implies value_end
                <= t[i + 1].name.start by {
                assert(slot_indexes(bytes@, from as int, models, t, i as int));
                assert(slot_indexes(bytes@, from as int, models, t, i + 1));
                assert(occurs_at(bytes@, header.name@, t[i as int].name.start as int));
                assert(occurs_at(bytes@, header.value@, t[i as int].value.start as int));
            }
        }
        table.push(slot);
        cursor = value_end;
        i += 1;
    }
    assert(models.take(i as int) =~= models);
    Some(table)
}

/// Every slot of `table` lies within the first `len` bytes.
pub open spec fn table_within(table: Seq<HeaderIndices>, len: nat) -> bool {
    forall|i: int|
        0 <= i < table.len() ==> (#[trigger] table[i]).name.within(len) && table[i].value.within(len)
}

/// The headers that `table` resolves to over `buf`, in the table's order.
pub open spec fn resolve_table(table: Seq<HeaderIndices>, buf: Seq<u8>) -> Seq<HeaderModel> {
    Seq::new(
        table.len(),
        |i: int| HeaderModel { name: table[i].name.of(buf), value: table[i].value.of(buf) },
    )
}

/// The header at `i` is the first in `entries` whose name is `name` up to
/// ASCII case.
pub open spec fn is_first_match(entries: Seq<HeaderModel>, name: Seq<u8>, i: int) -> bool {
    &&& 0 <= i < entries.len()
    &&& eq_ignore_case(entries[i].name, name)
    &&& forall|j: int| 0 <= j < i ==> !eq_ignore_case(#[trigger] entries[j].name, name)
}

/// The value of the first header in `entries`, in wire order, whose name is
/// `name` up to ASCII case.
pub open spec fn lookup(entries: Seq<HeaderModel>, name: Seq<u8>) -> Option<Seq<u8>> {
    if exists|i: int| is_first_match(entries, name, i) {
        Some(entries[choose|i: int| is_first_match(entries, name, i)].value)
    } else {
        None
    }
}

/// The body length that `entries` announce: the number in the first
/// `Content-Length` header, and 0 where there is no such header or its value
/// is no number that fits.
pub open spec fn content_length_of(entries: Seq<HeaderModel>) -> usize {
    match lookup(entries, "Content-Length".spec_bytes()) {
        Some(value) => match usize_value(value) {
            Some(n) => n,
            None => 0,
        },
        None => 0,
    }
}

/// A zero-copy view of the headers of a request: the index table resolved
/// against the buffer.
#[derive(Clone, Copy, Debug)]
pub struct Headers<'a> {
    buf: &'a [u8],
    table: &'a [HeaderIndices],
}

impl<'a> Headers<'a> {
    #[verifier::type_invariant]
    spec fn inv(&self) -> bool {
        table_within(self.table@, self.buf@.len())
    }

    /// The headers, in wire order.
    pub closed spec fn entries(&self) -> Seq<HeaderModel> {
        resolve_table(self.table@, self.buf@)
    }

    /// A view of `table` over `buf`, if every slot of the table lies in
    /// `buf`.
    pub fn new(buf: &'a [u8], table: &'a [HeaderIndices]) -> (r: Option<Headers<'a>>)
        ensures
            match r {
                Some(headers) => table_within(table@, buf@.len()) && headers.entries()
                    == resolve_table(table@, buf@),
                None => !table_within(table@, buf@.len()),
            },
    {
        let mut i: usize = 0;
        while i < table.len()
            invariant
                i <= table.len(),
                forall|k: int|
                    0 <= k < i ==> (#[trigger] table@[k]).name.within(buf@.len())
                        && table@[k].value.within(buf@.len()),
            decreases table.len() - i,
        {
            let slot = &table[i];
            if slot.name.start > slot.name.end || slot.name.end > buf.len() || slot.value.start
                > slot.value.end || slot.value.end > buf.len() {
                return None;
            }
            i += 1;
        }
        Some(Headers { buf, table })
    }

    /// A view of the headers of a complete head.
    pub fn of_head(head: &'a ReceivedHead) -> (r: Headers<'a>)
        ensures
            r.entries() == head@.headers,
    {
        let index = head.head();
        Headers { buf: head.bytes(), table: index.headers.as_slice() }
    }

    /// The number of headers.
    pub fn len(&self) -> (r: usize)
        ensures
            r == self.entries().len(),
    {
        self.table.len()
    }

    /// The name of the header at `i`.
    pub fn name(&self, i: usize) -> (r: &'a [u8])
        requires
            i < self.entries().len(),
        ensures
            r@ == self.entries()[i as int].name,
    {
        proof {
            use_type_invariant(self);
        }
        self.table[i].name.slice(self.buf)
    }

    /// The value of the header at `i`.
    pub fn value(&self, i: usize) -> (r: &'a [u8])
        requires
            i < self.entries().len(),
        ensures
            r@ == self.entries()[i as int].value,
    {
        proof {
            use_type_invariant(self);
        }
        self.table[i].value.slice(self.buf)
    }

    /// Looks a header up by name, without regard to ASCII case, and gives
    /// the value of the first one in wire order, as it stands in the buffer.
    pub fn get_first(&self, name: &str) -> (r: Option<&'a [u8]>)
        ensures
            match r {
                Some(value) => lookup(self.entries(), name.spec_bytes()) == Some(value@),
                None => lookup(self.entries(), name.spec_bytes()) is None,
            },
    {
        let wanted = name.as_bytes();
        let mut i: usize = 0;
        while i < self.len()
            invariant
                i <= self.entries().len(),
                wanted@ == name.spec_bytes(),
                forall|j: int|
                    0 <= j < i ==> !eq_ignore_case(#[trigger] self.entries()[j].name, wanted@),
            decreases self.entries().len() - i,
        {
            if eq_ignore_ascii_case(self.name(i), wanted) {
                proof {
                    let chosen = choose|k: int| is_first_match(self.entries(), wanted@, k);
                    assert(is_first_match(self.entries(), wanted@, i as int));
                    assert(chosen == i) by {
                        if chosen < i {
                            assert(!eq_ignore_case(self.entries()[chosen].name, wanted@));
                        }
                    }
                }
                return Some(self.value(i));
            }
            i += 1;
        }
        assert forall|k: int| !is_first_match(self.entries(), wanted@, k) by {
            if is_first_match(self.entries(), wanted@, k) {
                assert(!eq_ignore_case(self.entries()[k].name, wanted@));
            }
        }
        None
    }

    /// The body length that the headers announce: see `content_length_of`.
    pub fn content_length(&self) -> (r: usize)
        ensures
            r == content_length_of(self.entries()),
    {
        match self.get_first("Content-Length") {
            Some(value) => match parse_usize(value) {
                Some(n) => n,
                None => 0,
            },
            None => 0,
        }
    }
}

/// What a read of the request body comes to.
#[derive(Debug, PartialEq, Eq)]
pub enum BodyRead<'a> {
    /// The body has been delivered in full, or no byte was asked for.
    End,
    /// These bytes, which had been received together with the head.
    Buffered(&'a [u8]),
    /// Nothing is buffered: read at most `max` bytes from the transport and
    /// report them with `advance`.
    Transport { max: usize },
}

/// The content of a `BodyRead`.
pub enum ReadModel {
    End,
    Buffered(Seq<u8>),
    Transport { max: nat },
}

impl<'a> View for BodyRead<'a> {
    type V = ReadModel;

    open spec fn view(&self) -> ReadModel {
        match self {
            BodyRead::End => ReadModel::End,
            BodyRead::Buffered(chunk) => ReadModel::Buffered(chunk@),
            BodyRead::Transport { max } => ReadModel::Transport { max: *max as nat },
        }
    }
}

/// The state of a body: its length, how much of it has been handed out, and
/// the bytes received with the head that have not been handed out.
pub struct BodyModel {
    pub content_length: nat,
    pub yielded: nat,
    pub buffered: Seq<u8>,
}

/// The smaller of two numbers.
pub open spec fn least(a: int, b: int) -> int {
    if a <= b {
        a
    } else {
        b
    }
}

impl BodyModel {
    /// No more has been handed out than the body is long.
    pub open spec fn wf(self) -> bool {
        self.yielded <= self.content_length
    }

    /// How many bytes the body still owes.
    pub open spec fn remaining(self) -> int {
        self.content_length - self.yielded
    }

    /// A read of up to `max` bytes: the state after it and what it comes to.
    /// Nothing is read once the body's length has been handed out; else
    /// buffered bytes come first, as many as are asked for, owed and
    /// buffered; else the transport is to be read, for as many bytes as are
    /// asked for and owed.
    pub open spec fn read(self, max: nat) -> (BodyModel, ReadModel) {
        let most = least(max as int, self.remaining());
        if most <= 0 {
            (self, ReadModel::End)
        } else if self.buffered.len() == 0 {
            (self, ReadModel::Transport { max: most as nat })
        } else {
            let n = least(most, self.buffered.len() as int);
            (
                BodyModel {
                    content_length: self.content_length,
                    yielded: (self.yielded + n) as nat,
                    buffered: self.buffered.skip(n),
                },
                ReadModel::Buffered(self.buffered.take(n)),
            )
        }
    }

    /// The state after `n` bytes were read from the transport; bytes beyond
    /// the body's length do not count.
    pub open spec fn advance(self, n: nat) -> BodyModel {
        BodyModel {
            content_length: self.content_length,
            yielded: (self.yielded + least(n as int, self.remaining())) as nat,
            buffered: self.buffered,
        }
    }
}

/// How many bytes a read hands out.
pub open spec fn read_len(read: ReadModel) -> nat {
    match read {
        ReadModel::Buffered(chunk) => chunk.len(),
        _ => 0,
    }
}

/// The body never hands out more than its length: a read or a report from
/// the transport leaves at most `content_length` bytes handed out, and a
/// read adds just the bytes that it gives.
pub proof fn lemma_body_within_length(body: BodyModel, max: nat, n: nat)
    requires
        body.wf(),
    ensures
        body.read(max).0.wf(),
        body.read(max).0.yielded == body.yielded + read_len(body.read(max).1),
        body.read(max).0.content_length == body.content_length,
        read_len(body.read(max).1) <= max,
        body.advance(n).wf(),
        body.advance(n).yielded <= body.yielded + n,
{
}

/// A body whose length has been handed out has ended: every read is `End`
/// and changes nothing, whatever is still buffered. So a body of length 0
/// yields nothing at all.
pub proof fn lemma_body_ends_at_length(body: BodyModel, max: nat)
    requires
        body.yielded == body.content_length,
    ensures
        body.read(max) == (body, ReadModel::End),
{
}

/// Where the buffer holds the rest of the body and more, a read that asks
/// for enough gives exactly the rest, and the read after it is `End`.
pub proof fn lemma_body_stops_at_length(body: BodyModel, max: nat, again: nat)
    requires
        body.wf(),
        0 < body.remaining() <= body.buffered.len(),
        body.remaining() <= max,
    ensures
        body.read(max).1 == ReadModel::Buffered(body.buffered.take(body.remaining())),
        body.read(max).0.yielded == body.content_length,
        body.read(max).0.read(again).1 == ReadModel::End,
{
}

/// Headers without a `Content-Length`, or with one that is no number,
/// announce an empty body: a body set up from them yields nothing, whatever
/// was received after the head.
pub proof fn lemma_unannounced_body_is_empty(entries: Seq<HeaderModel>, buffered: Seq<u8>, max: nat)
    requires
        match lookup(entries, "Content-Length".spec_bytes()) {
            Some(value) => usize_value(value) is None,
            None => true,
        },
    ensures
        content_length_of(entries) == 0,
        ({
            let body = BodyModel {
                content_length: content_length_of(entries) as nat,
                yielded: 0,
                buffered,
            };
            body.read(max) == (body, ReadModel::End)
        }),
{
}

/// The body of a request as a sequential producer of at most
/// `content_length` bytes: first those received together with the head,
/// then those still to be read from the transport.
#[derive(Debug)]
pub struct Body<'a> {
    content_length: usize,
    yielded: usize,
    buffered: &'a [u8],
}

impl<'a> View for Body<'a> {
    type V = BodyModel;

    closed spec fn view(&self) -> BodyModel {
        BodyModel {
            content_length: self.content_length as nat,
            yielded: self.yielded as nat,
            buffered: self.buffered@,
        }
    }
}

impl<'a> Body<'a> {
    #[verifier::type_invariant]
    spec fn inv(&self) -> bool {
        self.yielded <= self.content_length
    }

    /// A body of `content_length` bytes of which `buffered` have been
    /// received already; `buffered` may hold more than the body.
    pub fn new(content_length: usize, buffered: &'a [u8]) -> (r: Body<'a>)
        ensures
            r@ == (BodyModel {
                content_length: content_length as nat,
                yielded: 0,
                buffered: buffered@,
            }),
    {
        Body { content_length, yielded: 0, buffered }
    }

    /// The length of the body.
    pub fn content_length(&self) -> (r: usize)
        ensures
            r == self@.content_length,
    {
        self.content_length
    }

    /// How many bytes of the body have been handed out; never more than its
    /// length.
    pub fn yielded(&self) -> (r: usize)
        ensures
            r == self@.yielded,
            self@.wf(),
    {
        proof {
            use_type_invariant(self);
        }
        self.yielded
    }

    /// Reads up to `max` bytes of the body. Buffered bytes come first; when
    /// none are left the caller is told how many bytes it may read from the
    /// transport. Once `content_length` bytes have been handed out every
    /// read is `End`, whatever is still buffered or on the transport.
    pub fn read(&mut self, max: usize) -> (r: BodyRead<'a>)
        ensures
            old(self)@.wf(),
            final(self)@ == old(self)@.read(max as nat).0,
            r@ == old(self)@.read(max as nat).1,
    {
        proof {
            use_type_invariant(&*self);
        }
        let remaining: usize = self.content_length - self.yielded;
        if remaining == 0 || max == 0 {
            return BodyRead::End;
        }
        let most: usize = if max < remaining {
            max
        } else {
            remaining
        };
        if self.buffered.len() == 0 {
            return BodyRead::Transport { max: most };
        }
        let n: usize = if most < self.buffered.len() {
            most
        } else {
            self.buffered.len()
        };
        let chunk = vstd::slice::slice_subrange(self.buffered, 0, n);
        self.buffered = vstd::slice::slice_subrange(self.buffered, n, self.buffered.len());
        self.yielded = self.yielded + n;
        BodyRead::Buffered(chunk)
    }

    /// Records that `n` bytes of the body were read from the transport.
    /// Bytes beyond the body's length are not counted.
    pub fn advance(&mut self, n: usize)
        ensures
            old(self)@.wf(),
            final(self)@ == old(self)@.advance(n as nat),
    {
        proof {
            use_type_invariant(&*self);
        }
        let remaining: usize = self.content_length - self.yielded;
        if n < remaining {
            self.yielded = self.yielded + n;
        } else {
            self.yielded = self.content_length;
        }
    }
}

/// The head of a request, resolved: everything but the body.
#[derive(Debug)]
pub struct Parts<'a> {
    pub method: Method,
    pub path: &'a [u8],
    pub query: Option<&'a [u8]>,
    pub headers: Headers<'a>,
}

/// The content of `Parts`.
pub struct PartsModel {
    pub method: Method,
    pub path: Seq<u8>,
    pub query: Option<Seq<u8>>,
    pub headers: Seq<HeaderModel>,
}

impl<'a> View for Parts<'a> {
    type V = PartsModel;

    open spec fn view(&self) -> PartsModel {
        PartsModel {
            method: self.method,
            path: self.path@,
            query: match self.query {
                Some(q) => Some(q@),
                None => None,
            },
            headers: self.headers.entries(),
        }
    }
}

/// The parts of the request whose head is `head`, or the fault in it: a
/// target whose path is not well formed is an `InvalidUrl`, and after that a
/// method that is none of the known ones is an `InvalidMethod`.
pub open spec fn parts_of(head: HeadModel) -> Result<PartsModel, ProtocolError> {
    match (head.target, head.method) {
        (None, _) => Err(ProtocolError::InvalidUrl),
        (Some(target), method) => if !valid_path(path_of(target)) {
            Err(ProtocolError::InvalidUrl)
        } else {
            match method {
                None => Err(ProtocolError::InvalidMethod),
                Some(token) => match method_of(token) {
                    None => Err(ProtocolError::InvalidMethod),
                    Some(method) => Ok(
                        PartsModel {
                            method,
                            path: path_of(target),
                            query: query_of(target),
                            headers: head.headers,
                        },
                    ),
                },
            }
        },
    }
}

/// A request: its parts and its body.
#[derive(Debug)]
pub struct Request<'a> {
    pub parts: Parts<'a>,
    pub body: Body<'a>,
}

impl<'a> Request<'a> {
    /// Puts a request together.
    pub fn from_parts(parts: Parts<'a>, body: Body<'a>) -> (r: Request<'a>)
        ensures
            r.parts == parts,
            r.body == body,
    {
        Request { parts, body }
    }

    /// Takes a request apart.
    pub fn into_parts(self) -> (r: (Parts<'a>, Body<'a>))
        ensures
            r.0 == self.parts,
            r.1 == self.body,
    {
        (self.parts, self.body)
    }

    /// Assembles the request that a complete head stands for: splits the
    /// target, reads the method, views the headers, and sets up the body
    /// over the bytes received after the head with the length that the
    /// headers announce.
    pub fn assemble(head: &'a ReceivedHead) -> (r: Result<Request<'a>, ProtocolError>)
        ensures
            match r {
                Ok(request) => {
                    &&& parts_of(head@) == Ok::<PartsModel, ProtocolError>(request.parts@)
                    &&& request.body@ == (BodyModel {
                        content_length: content_length_of(head@.headers) as nat,
                        yielded: 0,
                        buffered: head.received().skip(head@.body_start as int),
                    })
                },
                Err(e) => parts_of(head@) == Err::<PartsModel, ProtocolError>(e),
            },
    {
        let buf = head.bytes();
        let index = head.head();
        let paq = match PathAndQuery::parse(index.target.slice(buf)) {
            Ok(paq) => paq,
            Err(e) => {
                return Err(e);
            },
        };
        let method = match Method::new(index.method.slice(buf)) {
            Some(method) => method,
            None => {
                return Err(ProtocolError::InvalidMethod);
            },
        };
        let headers = Headers::of_head(head);
        let body = Body::new(headers.content_length(), head.leftover());
        Ok(
            Request {
                parts: Parts { method, path: paq.path(), query: paq.query(), headers },
                body,
            },
        )
    }
}

} // verus!
