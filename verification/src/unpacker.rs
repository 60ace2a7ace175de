use vstd::prelude::*;

verus! {

/// Signal that the buffer ran out before a complete value could be read.
#[derive(Clone, Copy, PartialEq, Eq, Structural, Debug)]
pub struct UnexpectedEnd;

/// Either a domain error or the unexpected-end signal.
#[derive(Clone, Copy, PartialEq, Eq, Structural, Debug)]
pub enum MaybeEnd<E> {
    Fail(E),
    UnexpectedEnd,
}

impl<E> From<UnexpectedEnd> for MaybeEnd<E> {
    fn from(_e: UnexpectedEnd) -> (r: MaybeEnd<E>) {
        MaybeEnd::UnexpectedEnd
    }
}

impl<E> vstd::std_specs::convert::FromSpecImpl<UnexpectedEnd> for MaybeEnd<E> {
    open spec fn obeys_from_spec() -> bool {
        true
    }

    open spec fn from_spec(_e: UnexpectedEnd) -> MaybeEnd<E> {
        MaybeEnd::UnexpectedEnd
    }
}

/// Whether a varint byte carries the continuation bit.
pub open spec fn cont(b: u8) -> bool {
    b & 0x80 == 0x80
}

/// Whether the first varint byte carries the sign bit.
pub open spec fn sign_bit(b: u8) -> bool {
    b & 0x40 == 0x40
}

/// A complete variable-length integer starts at the front of `b`: the first
/// byte holds sign, six magnitude bits and a continuation bit; up to three
/// further bytes hold seven magnitude bits and a continuation bit each; a
/// fifth byte, if reached, contributes its low four bits and always ends the
/// value.
pub open spec fn varint_ok(b: Seq<u8>) -> bool {
    if b.len() == 0 {
        false
    } else if !cont(b[0]) {
        true
    } else if b.len() == 1 {
        false
    } else if !cont(b[1]) {
        true
    } else if b.len() == 2 {
        false
    } else if !cont(b[2]) {
        true
    } else if b.len() == 3 {
        false
    } else if !cont(b[3]) {
        true
    } else {
        b.len() >= 5
    }
}

/// Number of bytes the varint at the front of `b` occupies.
pub open spec fn varint_size(b: Seq<u8>) -> int
    recommends
        varint_ok(b),
{
    if !cont(b[0]) {
        1
    } else if !cont(b[1]) {
        2
    } else if !cont(b[2]) {
        3
    } else if !cont(b[3]) {
        4
    } else {
        5
    }
}

/// Magnitude encoded by the varint at the front of `b`, before the sign is
/// applied; at most `0x7fffffff`.
pub open spec fn varint_mag(b: Seq<u8>) -> int
    recommends
        varint_ok(b),
{
    let p0 = (b[0] & 0x3f) as int;
    if !cont(b[0]) {
        p0
    } else {
        let p1 = (b[1] & 0x7f) as int;
        if !cont(b[1]) {
            p0 + p1 * 64
        } else {
            let p2 = (b[2] & 0x7f) as int;
            if !cont(b[2]) {
                p0 + p1 * 64 + p2 * 8192
            } else {
                let p3 = (b[3] & 0x7f) as int;
                if !cont(b[3]) {
                    p0 + p1 * 64 + p2 * 8192 + p3 * 1048576
                } else {
                    let p4 = (b[4] & 0x0f) as int;
                    p0 + p1 * 64 + p2 * 8192 + p3 * 1048576 + p4 * 134217728
                }
            }
        }
    }
}

/// Signed value of the varint at the front of `b`; always within `i32` range.
pub open spec fn varint_value(b: Seq<u8>) -> int
    recommends
        varint_ok(b),
{
    if sign_bit(b[0]) {
        -varint_mag(b) - 1
    } else {
        varint_mag(b)
    }
}

/// A complete length-prefixed payload starts at the front of `b`: a
/// non-negative varint length followed by that many bytes.
pub open spec fn string_ok(b: Seq<u8>) -> bool {
    &&& varint_ok(b)
    &&& 0 <= varint_value(b)
    &&& varint_size(b) + varint_value(b) <= b.len()
}

/// The bytes of the length-prefixed payload at the front of `b`.
pub open spec fn string_payload(b: Seq<u8>) -> Seq<u8>
    recommends
        string_ok(b),
{
    b.skip(varint_size(b)).take(varint_value(b))
}

/// Total number of bytes the length-prefixed payload at the front of `b`
/// occupies, prefix included.
pub open spec fn string_size(b: Seq<u8>) -> int
    recommends
        string_ok(b),
{
    varint_size(b) + varint_value(b)
}

/// `n` complete varints stand at the front of `b`.
pub open spec fn ints_ok(b: Seq<u8>, n: nat) -> bool
    decreases n,
{
    n == 0 || (varint_ok(b) && ints_ok(b.skip(varint_size(b)), (n - 1) as nat))
}

/// Total number of bytes the `n` varints at the front of `b` occupy.
pub open spec fn ints_size(b: Seq<u8>, n: nat) -> int
    recommends
        ints_ok(b, n),
    decreases n,
{
    if n == 0 {
        0
    } else {
        varint_size(b) + ints_size(b.skip(varint_size(b)), (n - 1) as nat)
    }
}

/// The values of the `n` varints at the front of `b`, in order.
pub open spec fn ints_values(b: Seq<u8>, n: nat) -> Seq<int>
    recommends
        ints_ok(b, n),
    decreases n,
{
    if n == 0 {
        Seq::empty()
    } else {
        seq![varint_value(b)] + ints_values(b.skip(varint_size(b)), (n - 1) as nat)
    }
}

/// Sequential cursor over a fully resident byte buffer.
pub struct Unpacker {
    data: Vec<u8>,
    pos: usize,
}

impl Unpacker {
    /// The whole underlying buffer.
    pub closed spec fn bytes(self) -> Seq<u8> {
        self.data@
    }

    /// Cursor position, counted from the front of the buffer.
    pub closed spec fn pos(self) -> nat {
        self.pos as nat
    }

    pub open spec fn wf(self) -> bool {
        self.pos() <= self.bytes().len()
    }

    /// The bytes not yet consumed.
    pub open spec fn remaining(self) -> Seq<u8> {
        self.bytes().skip(self.pos() as int)
    }

    pub fn new(data: Vec<u8>) -> (r: Unpacker)
        ensures
            r.wf(),
            r.bytes() == data@,
            r.pos() == 0,
    {
        Unpacker { data, pos: 0 }
    }

    /// Moves the cursor back to an earlier position.
    pub fn rewind(&mut self, pos: usize)
        requires
            old(self).wf(),
            pos as nat <= old(self).bytes().len(),
        ensures
            final(self).wf(),
            final(self).bytes() == old(self).bytes(),
            final(self).pos() == pos as nat,
    {
        self.pos = pos;
    }

    /// Number of bytes not yet consumed.
    pub fn remaining_len(&self) -> (r: usize)
        requires
            self.wf(),
        ensures
            r as nat == self.remaining().len(),
    {
        self.data.len() - self.pos
    }

    /// Current cursor position.
    pub fn cur_pos(&self) -> (r: usize)
        ensures
            r as nat == self.pos(),
    {
        self.pos
    }

    /// Reads exactly `n` raw bytes, or fails without moving the cursor.
    pub fn read_raw(&mut self, n: usize) -> (r: Result<Vec<u8>, UnexpectedEnd>)
        requires
            old(self).wf(),
        ensures
            final(self).wf(),
            final(self).bytes() == old(self).bytes(),
            old(self).remaining().len() >= n ==> {
                &&& r is Ok
                &&& r.unwrap()@ == old(self).remaining().take(n as int)
                &&& final(self).pos() == old(self).pos() + n
            },
            old(self).remaining().len() < n ==> r is Err && final(self).pos() == old(self).pos(),
    {
        if self.data.len() - self.pos < n {
            return Err(UnexpectedEnd);
        }
        let end: usize = self.pos + n;
        let mut v: Vec<u8> = Vec::new();
        let mut i: usize = 0;
        while i < n
            invariant
                *self == *old(self),
                self.wf(),
                i <= n,
                n <= self.remaining().len(),
                end as int == self.pos() + n,
                v@ == self.remaining().take(i as int),
            decreases n - i,
        {
            let b: u8 = self.data[self.pos + i];
            v.push(b);
            i = i + 1;
            proof {
                assert(v@ =~= self.remaining().take(i as int));
            }
        }
        self.pos = self.pos + n;
        Ok(v)
    }

    /// Reads one signed variable-length integer, or fails without moving the
    /// cursor.
    pub fn read_int(&mut self) -> (r: Result<i32, UnexpectedEnd>)
        requires
            old(self).wf(),
        ensures
            final(self).wf(),
            final(self).bytes() == old(self).bytes(),
            varint_ok(old(self).remaining()) ==> {
                &&& r is Ok
                &&& r.unwrap() as int == varint_value(old(self).remaining())
                &&& final(self).pos() == old(self).pos() + varint_size(old(self).remaining())
            },
            !varint_ok(old(self).remaining()) ==> r is Err && final(self).pos() == old(self).pos(),
    {
        let p: usize = self.pos;
        let n: usize = self.data.len();
        if n - p < 1 {
            return Err(UnexpectedEnd);
        }
        let b0: u8 = self.data[p];
        proof {
            assert(old(self).remaining()[0] == b0);
            assert((b0 & 0x3f) < 64 && (b0 & 0x0f) < 16) by (bit_vector);
        }
        let sgn: bool = b0 & 0x40 == 0x40;
        let m0: u32 = (b0 & 0x3f) as u32;
        if b0 & 0x80 != 0x80 {
            self.pos = p + 1;
            return Ok(sign_apply(sgn, m0));
        }
        if n - p < 2 {
            return Err(UnexpectedEnd);
        }
        let b1: u8 = self.data[p + 1];
        proof {
            assert(old(self).remaining()[1] == b1);
            assert((b1 & 0x7f) < 128) by (bit_vector);
        }
        let m1: u32 = m0 + ((b1 & 0x7f) as u32) * 64;
        if b1 & 0x80 != 0x80 {
            self.pos = p + 2;
            return Ok(sign_apply(sgn, m1));
        }
        if n - p < 3 {
            return Err(UnexpectedEnd);
        }
        let b2: u8 = self.data[p + 2];
        proof {
            assert(old(self).remaining()[2] == b2);
            assert((b2 & 0x7f) < 128) by (bit_vector);
        }
        let m2: u32 = m1 + ((b2 & 0x7f) as u32) * 8192;
        if b2 & 0x80 != 0x80 {
            self.pos = p + 3;
            return Ok(sign_apply(sgn, m2));
        }
        if n - p < 4 {
            return Err(UnexpectedEnd);
        }
        let b3: u8 = self.data[p + 3];
        proof {
            assert(old(self).remaining()[3] == b3);
            assert((b3 & 0x7f) < 128) by (bit_vector);
        }
        let m3: u32 = m2 + ((b3 & 0x7f) as u32) * 1048576;
        if b3 & 0x80 != 0x80 {
            self.pos = p + 4;
            return Ok(sign_apply(sgn, m3));
        }
        if n - p < 5 {
            return Err(UnexpectedEnd);
        }
        let b4: u8 = self.data[p + 4];
        proof {
            assert(old(self).remaining()[4] == b4);
            assert((b4 & 0x0f) < 16) by (bit_vector);
        }
        let m4: u32 = m3 + ((b4 & 0x0f) as u32) * 134217728;
        self.pos = p + 5;
        Ok(sign_apply(sgn, m4))
    }

    /// Reads one length-prefixed payload, or fails without moving the cursor.
    pub fn read_string(&mut self) -> (r: Result<Vec<u8>, UnexpectedEnd>)
        requires
            old(self).wf(),
        ensures
            final(self).wf(),
            final(self).bytes() == old(self).bytes(),
            string_ok(old(self).remaining()) ==> {
                &&& r is Ok
                &&& r.unwrap()@ == string_payload(old(self).remaining())
                &&& final(self).pos() == old(self).pos() + string_size(old(self).remaining())
            },
            !string_ok(old(self).remaining()) ==> r is Err && final(self).pos() == old(self).pos(),
    {
        let ghost r0: Seq<u8> = self.remaining();
        let start: usize = self.pos;
        let l: i32 = match self.read_int() {
            Ok(l) => l,
            Err(e) => {
                return Err(e);
            },
        };
        if l < 0 {
            self.pos = start;
            return Err(UnexpectedEnd);
        }
        proof {
            lemma_skip_skip(old(self).bytes(), start as int, varint_size(r0));
        }
        match self.read_raw(l as usize) {
            Ok(v) => {
                Ok(v)
            },
            Err(_) => {
                self.pos = start;
                Err(UnexpectedEnd)
            },
        }
    }
}

/// Applies the varint sign convention to a decoded magnitude.
fn sign_apply(sgn: bool, mag: u32) -> (r: i32)
    requires
        mag <= 0x7fffffff,
    ensures
        r as int == if sgn { -(mag as int) - 1 } else { mag as int },
{
    if sgn {
        (-(mag as i64) - 1) as i32
    } else {
        mag as i32
    }
}

/// Dropping a prefix twice drops the sum of the prefixes.
pub proof fn lemma_skip_skip<A>(s: Seq<A>, a: int, b: int)
    requires
        0 <= a,
        0 <= b,
        a + b <= s.len(),
    ensures
        s.skip(a).skip(b) == s.skip(a + b),
{
    assert(s.skip(a).skip(b) =~= s.skip(a + b));
}

} // verus!
