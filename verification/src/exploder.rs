use crate::symbol::{decode_bits, spec_decode, table_wf, CodeTable, Symbol};
use vstd::prelude::*;
use vstd::slice::slice_subrange;

verus! {

/// Streaming decoder state: the sliding-window buffer, the carried bit
/// accumulator, and everything that must survive between chunk calls.
pub struct Exploder<'a> {
    pub table: &'a CodeTable,
    pub dict_bits: u32,
    pub need_mode: bool,
    pub need_dict_bits: bool,
    pub ended: bool,
    pub need_swap: bool,
    pub buff: [u8; 8192],
    /// XOR to be applied to offset
    pub offs_xor: u32,
    pub write_offs: u32,
    pub bits: u64,
    pub nbits: u32,
    pub remaining_len: u32,
    pub current_offs: u32,
}

#[derive(Debug, PartialEq, Eq, Structural, Copy, Clone)]
pub enum ExplodeError {
    /// More input is needed before the mode header byte can be read.
    NeedMode,
    /// More input is needed before the dictionary-size header byte can be read.
    NeedDictBits,
    /// More input is needed to make progress.
    NeedMoreBytes,
    /// A symbol could not be decoded.
    BitDecodeError,
    /// The mode header byte selected a literal coding this decoder does not
    /// implement; the stream cannot be decoded.
    UnsupportedMode,
    /// A back-reference reached farther back than the sliding window holds.
    InvalidDistance,
}

/// The physical buffer index that the logical index `i` reaches once the
/// half-selecting XOR mask `xor` (0 or 4096) is applied.
pub open spec fn phys_addr(i: int, xor: int) -> int {
    if xor == 0 {
        i
    } else if i < 4096 {
        i + 4096
    } else {
        i - 4096
    }
}

/// The buffer after copying `n` bytes one at a time from logical offset
/// `from` to logical offset `to`, both translated through `xor`. Byte `k` is
/// read after bytes `0..k` were written, exactly as an overlapping LZ77 copy
/// requires.
pub open spec fn lz_copy(b: Seq<u8>, xor: int, from: int, to: int, n: nat) -> Seq<u8>
    decreases n,
{
    if n == 0 {
        b
    } else {
        let prev = lz_copy(b, xor, from, to, (n - 1) as nat);
        prev.update(phys_addr(to + n - 1, xor), prev[phys_addr(from + n - 1, xor)])
    }
}

/// The cross-call state a decoder carries, as mathematical values, together
/// with the input cursor of the running call.
#[verifier::ext_equal]
pub ghost struct FlowState {
    pub buff: Seq<u8>,
    pub offs_xor: int,
    pub write_offs: int,
    pub bits: u64,
    pub nbits: u32,
    pub remaining_len: int,
    pub current_offs: int,
    pub need_swap: bool,
    pub ended: bool,
    pub fault: bool,
    pub pos: int,
}

/// The flow state a decoder is in when a call starts scanning input at `pos`.
pub open spec fn flow_of(e: Exploder, pos: int) -> FlowState {
    FlowState {
        buff: e.buff@,
        offs_xor: e.offs_xor as int,
        write_offs: e.write_offs as int,
        bits: e.bits,
        nbits: e.nbits,
        remaining_len: e.remaining_len as int,
        current_offs: e.current_offs as int,
        need_swap: e.need_swap,
        ended: e.ended,
        fault: false,
        pos: pos,
    }
}

/// A deferred buffer-half swap, completed before decoding resumes: flip the
/// active half, restart the write cursor, and finish the interrupted copy
/// (whose source shifts down by a half) as far as the fresh half allows.
pub open spec fn spec_swap_resume(s: FlowState) -> FlowState {
    if !s.need_swap {
        s
    } else {
        let x: int = if s.offs_xor == 0 {
            4096
        } else {
            0
        };
        if s.remaining_len > 0 {
            let co = s.current_offs - 4096;
            let alen: int = if s.remaining_len <= 4096 {
                s.remaining_len
            } else {
                4096
            };
            FlowState {
                offs_xor: x,
                buff: lz_copy(s.buff, x, co, 4096, alen as nat),
                write_offs: 4096 + alen,
                current_offs: co + alen,
                remaining_len: s.remaining_len - alen,
                need_swap: false,
                ..s
            }
        } else {
            FlowState { offs_xor: x, write_offs: 4096, need_swap: false, ..s }
        }
    }
}

/// The decode loop, as a function on flow states: refill the accumulator a
/// byte at a time while there is room and input, stop to request a swap when
/// the active half is full, and otherwise decode one symbol and apply it —
/// write a literal, run a bounded back-reference copy, or mark the end.
pub open spec fn spec_run(t: CodeTable, dict_bits: u32, s: FlowState, data: Seq<u8>) -> FlowState
    decreases 8 * (data.len() - s.pos) + s.nbits, data.len() - s.pos,
        when 0 <= s.pos <= data.len()
        via spec_run_dec
{
    if s.nbits <= 56 && s.pos < data.len() {
        spec_run(
            t,
            dict_bits,
            FlowState {
                bits: s.bits | ((data[s.pos] as u64) << (s.nbits as u64)),
                nbits: (s.nbits + 8) as u32,
                pos: s.pos + 1,
                ..s
            },
            data,
        )
    } else if s.write_offs == 8192 {
        FlowState { need_swap: true, ..s }
    } else {
        match spec_decode(t, s.bits, s.nbits, dict_bits) {
            Err(_) => s,
            Ok(o) => {
                let s2 = FlowState {
                    bits: s.bits >> (o.used_bits as u64),
                    nbits: (s.nbits - o.used_bits) as u32,
                    ..s
                };
                match o.decoded {
                    Symbol::Literal(b) => spec_run(
                        t,
                        dict_bits,
                        FlowState {
                            buff: s2.buff.update(phys_addr(s2.write_offs, s2.offs_xor), b),
                            write_offs: s2.write_offs + 1,
                            ..s2
                        },
                        data,
                    ),
                    Symbol::Pair { distance, length } => {
                        if distance > 4096 {
                            FlowState { fault: true, ..s2 }
                        } else {
                            let alen: int = if length <= 8192 - s2.write_offs {
                                length as int
                            } else {
                                8192 - s2.write_offs
                            };
                            let s3 = FlowState {
                                buff: lz_copy(
                                    s2.buff,
                                    s2.offs_xor,
                                    s2.write_offs - distance,
                                    s2.write_offs,
                                    alen as nat,
                                ),
                                write_offs: s2.write_offs + alen,
                                current_offs: s2.write_offs - distance + alen,
                                remaining_len: length - alen,
                                ..s2
                            };
                            if s3.remaining_len != 0 {
                                FlowState { need_swap: true, ..s3 }
                            } else {
                                spec_run(t, dict_bits, s3, data)
                            }
                        }
                    },
                    Symbol::End => FlowState { ended: true, ..s2 },
                }
            },
        }
    }
}

#[via_fn]
proof fn spec_run_dec(t: CodeTable, dict_bits: u32, s: FlowState, data: Seq<u8>) {
    if !(s.nbits <= 56 && s.pos < data.len()) && s.write_offs != 8192 {
        if let Ok(o) = spec_decode(t, s.bits, s.nbits, dict_bits) {
            assert(1 <= o.used_bits && o.used_bits <= s.nbits);
        }
    }
}

/// The header outcome of a call: which backpressure or fatal error, if any,
/// the outstanding header bytes force on input `data`.
pub open spec fn spec_hdr_err(e: Exploder, data: Seq<u8>) -> Option<ExplodeError> {
    if e.need_mode && data.len() < 1 {
        Some(ExplodeError::NeedMode)
    } else if e.need_mode && data[0] != 0 {
        Some(ExplodeError::UnsupportedMode)
    } else if e.need_mode && e.need_dict_bits && data.len() < 2 {
        Some(ExplodeError::NeedDictBits)
    } else if !e.need_mode && e.need_dict_bits && data.len() < 1 {
        Some(ExplodeError::NeedDictBits)
    } else {
        None
    }
}

/// How many header bytes this call consumes before the bitstream.
pub open spec fn spec_hdr_len(e: Exploder) -> int {
    (if e.need_mode {
        1int
    } else {
        0int
    }) + (if e.need_dict_bits {
        1int
    } else {
        0int
    })
}

/// The dictionary width in force once the headers are settled.
pub open spec fn spec_dict_after(e: Exploder, data: Seq<u8>) -> u32 {
    if e.need_dict_bits {
        data[if e.need_mode {
            1int
        } else {
            0int
        }] as u32
    } else {
        e.dict_bits
    }
}

/// The flow state decoding starts from: the carried state, the input cursor
/// past the headers, and any deferred swap completed.
pub open spec fn spec_start_flow(e: Exploder, data: Seq<u8>) -> FlowState {
    spec_swap_resume(flow_of(e, spec_hdr_len(e)))
}

/// Well-formedness of the carried state between calls.
pub open spec fn exploder_inv(e: Exploder) -> bool {
    &&& e.offs_xor == 0 || e.offs_xor == 4096
    &&& 4096 <= e.write_offs <= 8192
    &&& e.nbits <= 64
    &&& !e.need_dict_bits ==> e.dict_bits <= 25
    &&& e.remaining_len > 0 ==> 4096 <= e.current_offs <= e.write_offs
}

/// The state a decoder is in before any header byte of a stream has been
/// consumed: what `new` constructs and `reset` restores.
pub open spec fn pre_header_state(e: Exploder) -> bool {
    &&& e.dict_bits == 0
    &&& e.need_mode
    &&& e.need_dict_bits
    &&& !e.ended
    &&& !e.need_swap
    &&& e.offs_xor == 0
    &&& e.write_offs == 4096
    &&& e.bits == 0
    &&& e.nbits == 0
    &&& e.remaining_len == 0
    &&& e.current_offs == 0
}

/// Where a call's fresh output begins: the start of the half once a
/// deferred swap completes, otherwise the write position the previous call
/// left behind.
pub open spec fn spec_out_start(e: Exploder) -> int {
    if e.need_swap {
        4096
    } else {
        e.write_offs as int
    }
}

/// The caller must keep the configured dictionary width small enough that a
/// decoded distance fits the window arithmetic.
pub open spec fn spec_dict_ok(e: Exploder, data: Seq<u8>) -> bool {
    e.need_dict_bits && (e.need_mode ==> data.len() >= 1 && data[0] == 0) ==> {
        let p: int = if e.need_mode {
            1
        } else {
            0
        };
        p < data.len() ==> data[p] <= 25
    }
}

proof fn lemma_xor_phys(w: u32, x: u32)
    requires
        w < 8192,
        x == 0 || x == 4096,
    ensures
        (w ^ x) < 8192,
        (w ^ x) as int == phys_addr(w as int, x as int),
{
    assert((x == 0 ==> (w ^ x) == w) && ((x == 4096 && w < 4096) ==> (w ^ x) == w + 4096) && ((x
        == 4096 && w >= 4096) ==> (w ^ x) == w - 4096) && (w ^ x) < 8192) by (bit_vector)
        requires
            w < 8192,
            x == 0 || x == 4096,
    ;
}

impl<'a> Exploder<'a> {
    /// A fresh decoder over `table`, in pre-header state.
    pub fn new(table: &'a CodeTable) -> (r: Exploder<'a>)
        ensures
            r.table == table,
            pre_header_state(r),
            exploder_inv(r),
            r.buff@ == Seq::new(8192, |i: int| 0u8),
    {
        Exploder {
            table: table,
            dict_bits: 0,
            need_mode: true,
            need_dict_bits: true,
            ended: false,
            need_swap: false,
            buff: [0u8; 8192],
            offs_xor: 0,
            write_offs: 4096,
            bits: 0,
            nbits: 0,
            remaining_len: 0,
            current_offs: 0,
        }
    }

    /// Flip the active buffer half, restart the write cursor, and shift the
    /// source of an interrupted copy down into the retired half.
    pub fn swap(&mut self)
        requires
            old(self).offs_xor == 0 || old(self).offs_xor == 4096,
            old(self).remaining_len > 0 ==> old(self).current_offs >= 4096,
        ensures
            final(self).offs_xor == (if old(self).offs_xor == 0 {
                4096u32
            } else {
                0u32
            }),
            final(self).write_offs == 4096,
            final(self).current_offs == (if old(self).remaining_len > 0 {
                old(self).current_offs - 4096
            } else {
                old(self).current_offs as int
            }),
            final(self).remaining_len == old(self).remaining_len,
            final(self).table == old(self).table,
            final(self).dict_bits == old(self).dict_bits,
            final(self).need_mode == old(self).need_mode,
            final(self).need_dict_bits == old(self).need_dict_bits,
            final(self).ended == old(self).ended,
            final(self).need_swap == old(self).need_swap,
            final(self).buff == old(self).buff,
            final(self).bits == old(self).bits,
            final(self).nbits == old(self).nbits,
    {
        let x = self.offs_xor;
        assert((x == 0 ==> (x ^ 4096) == 4096) && (x == 4096 ==> (x ^ 4096) == 0)) by (bit_vector);
        self.offs_xor = x ^ 4096;
        self.write_offs = 4096;
        if self.remaining_len > 0 {
            self.current_offs = self.current_offs - 4096;
        }
    }

    /// Return the decoder to pre-header state, keeping its buffer storage
    /// and table, so a new stream can be decoded.
    pub fn reset(&mut self)
        ensures
            pre_header_state(*final(self)),
            exploder_inv(*final(self)),
            final(self).table == old(self).table,
            final(self).buff == old(self).buff,
    {
        self.offs_xor = 0;
        self.write_offs = 4096;
        self.bits = 0;
        self.nbits = 0;
        self.remaining_len = 0;
        self.current_offs = 0;

        self.need_mode = true;
        self.need_dict_bits = true;
        self.dict_bits = 0;
        self.ended = false;
        self.need_swap = false;
    }

    /// Copy up to `length` bytes within the window, from logical offset
    /// `from_offs` to the write cursor, capped at the end of the active
    /// half; record the tail that did not fit. Returns whether a tail
    /// remains.
    fn handle_pair(&mut self, from_offs: u32, length: u32) -> (more: bool)
        requires
            old(self).offs_xor == 0 || old(self).offs_xor == 4096,
            old(self).write_offs <= 8192,
            from_offs <= old(self).write_offs,
        ensures
            ({
                let alen: int = if length <= 8192 - old(self).write_offs {
                    length as int
                } else {
                    8192 - old(self).write_offs
                };
                &&& final(self).write_offs == old(self).write_offs + alen
                &&& final(self).current_offs == from_offs + alen
                &&& final(self).remaining_len == length - alen
                &&& final(self).buff@ == lz_copy(
                    old(self).buff@,
                    old(self).offs_xor as int,
                    from_offs as int,
                    old(self).write_offs as int,
                    alen as nat,
                )
                &&& more == (final(self).remaining_len != 0)
                &&& final(self).table == old(self).table
                &&& final(self).dict_bits == old(self).dict_bits
                &&& final(self).need_mode == old(self).need_mode
                &&& final(self).need_dict_bits == old(self).need_dict_bits
                &&& final(self).ended == old(self).ended
                &&& final(self).need_swap == old(self).need_swap
                &&& final(self).offs_xor == old(self).offs_xor
                &&& final(self).bits == old(self).bits
                &&& final(self).nbits == old(self).nbits
            }),
    {
        let mut write_offs = self.write_offs;
        let mut from = from_offs;
        let alen: u32 = if length <= 8192 - write_offs {
            length
        } else {
            8192 - write_offs
        };
        let mut k: u32 = 0;
        while k < alen
            invariant
                k <= alen,
                alen as int == (if length <= 8192 - old(self).write_offs {
                    length as int
                } else {
                    8192 - old(self).write_offs
                }),
                old(self).write_offs + alen <= 8192,
                from_offs <= old(self).write_offs,
                write_offs == old(self).write_offs + k,
                from == from_offs + k,
                self.offs_xor == old(self).offs_xor,
                self.offs_xor == 0 || self.offs_xor == 4096,
                self.write_offs == old(self).write_offs,
                self.buff@ == lz_copy(
                    old(self).buff@,
                    old(self).offs_xor as int,
                    from_offs as int,
                    old(self).write_offs as int,
                    k as nat,
                ),
                self.table == old(self).table,
                self.dict_bits == old(self).dict_bits,
                self.need_mode == old(self).need_mode,
                self.need_dict_bits == old(self).need_dict_bits,
                self.ended == old(self).ended,
                self.need_swap == old(self).need_swap,
                self.bits == old(self).bits,
                self.nbits == old(self).nbits,
                self.remaining_len == old(self).remaining_len,
                self.current_offs == old(self).current_offs,
            decreases alen - k,
        {
            let x = self.offs_xor;
            proof {
                lemma_xor_phys(from, x);
                lemma_xor_phys(write_offs, x);
            }
            let b = self.buff[(from ^ x) as usize];
            self.buff[(write_offs ^ x) as usize] = b;
            write_offs = write_offs + 1;
            from = from + 1;
            k = k + 1;
        }
        self.remaining_len = length - alen;
        self.current_offs = from;
        self.write_offs = write_offs;
        self.remaining_len != 0
    }

    /// Decode as much of `data` as possible: consume outstanding header
    /// bytes, complete a deferred buffer-half swap, then decode symbols
    /// until the active half fills, the bits run out, or the end marker
    /// arrives. Returns the count of input bytes consumed and the newly
    /// produced output bytes, valid only until the next call.
    #[verifier::loop_isolation(false)]
    #[verifier::rlimit(60)]
    pub fn explode_block(&mut self, data: &[u8]) -> (r: Result<(usize, &[u8]), ExplodeError>)
        requires
            exploder_inv(*old(self)),
            table_wf(*old(self).table),
            !old(self).ended,
            spec_dict_ok(*old(self), data@),
        ensures
            ({
                let me = *old(self);
                match spec_hdr_err(me, data@) {
                    Some(err) => r == Err::<(usize, &[u8]), ExplodeError>(err) && *final(self)
                        == me,
                    None => {
                        let d = spec_dict_after(me, data@);
                        let f = spec_run(*me.table, d, spec_start_flow(me, data@), data@);
                        &&& exploder_inv(*final(self))
                        &&& final(self).table == me.table
                        &&& final(self).dict_bits == d
                        &&& !final(self).need_mode
                        &&& !final(self).need_dict_bits
                        &&& final(self).buff@ == f.buff
                        &&& final(self).offs_xor as int == f.offs_xor
                        &&& final(self).write_offs as int == f.write_offs
                        &&& final(self).bits == f.bits
                        &&& final(self).nbits == f.nbits
                        &&& final(self).remaining_len as int == f.remaining_len
                        &&& final(self).current_offs as int == f.current_offs
                        &&& final(self).need_swap == f.need_swap
                        &&& final(self).ended == f.ended
                        &&& if f.fault {
                            r == Err::<(usize, &[u8]), ExplodeError>(ExplodeError::InvalidDistance)
                        } else {
                            r matches Ok(out) && out.0 == f.pos && out.1@ == f.buff.subrange(
                                spec_out_start(me) - f.offs_xor,
                                f.write_offs - f.offs_xor,
                            )
                        }
                    },
                }
            }),
    {
        let ghost me = *old(self);
        let ghost t = *old(self).table;
        let entry_swap = self.need_swap;
        let entry_wo = self.write_offs;
        let mut pos: usize = 0;

        if self.need_mode {
            if data.len() < 1 {
                return Err(ExplodeError::NeedMode);
            }
            if data[0] != 0 {
                return Err(ExplodeError::UnsupportedMode);
            }
            if self.need_dict_bits && data.len() < 2 {
                return Err(ExplodeError::NeedDictBits);
            }
            self.need_mode = false;
            pos = 1;
        }

        if self.need_dict_bits {
            if data.len() - pos < 1 {
                return Err(ExplodeError::NeedDictBits);
            }
            self.dict_bits = data[pos] as u32;
            self.need_dict_bits = false;
            pos = pos + 1;
        }

        let ghost d = self.dict_bits;
        assert(d == spec_dict_after(me, data@));
        assert(d <= 25);
        assert(pos as int == spec_hdr_len(me));

        if self.need_swap {
            self.swap();
            if self.remaining_len > 0 {
                let co = self.current_offs;
                let rl = self.remaining_len;
                self.handle_pair(co, rl);
            }
            self.need_swap = false;
        }

        let ghost f0 = spec_start_flow(me, data@);
        assert(f0 == mk_flow(
            self.buff@,
            self.offs_xor as int,
            self.write_offs as int,
            self.bits,
            self.nbits,
            self.remaining_len as int,
            self.current_offs as int,
            pos as int,
        ));
        let ghost fin = spec_run(t, d, f0, data@);

        let mut bits = self.bits;
        let mut nbits = self.nbits;
        let mut done = false;
        let mut fault = false;

        while !done
            invariant
                self.table == me.table,
                !self.need_mode,
                !self.need_dict_bits,
                self.dict_bits == d,
                d <= 25,
                self.offs_xor == 0 || self.offs_xor == 4096,
                4096 <= self.write_offs <= 8192,
                nbits <= 64,
                pos <= data@.len(),
                self.remaining_len > 0 ==> 4096 <= self.current_offs <= self.write_offs,
                !done ==> !self.need_swap && !self.ended && spec_run(
                    t,
                    d,
                    mk_flow(
                        self.buff@,
                        self.offs_xor as int,
                        self.write_offs as int,
                        bits,
                        nbits,
                        self.remaining_len as int,
                        self.current_offs as int,
                        pos as int,
                    ),
                    data@,
                ) == fin,
                done && !fault ==> fin.buff == self.buff@ && fin.offs_xor == self.offs_xor as int
                    && fin.write_offs == self.write_offs as int && fin.bits == bits && fin.nbits
                    == nbits && fin.remaining_len == self.remaining_len as int && fin.current_offs
                    == self.current_offs as int && fin.need_swap == self.need_swap && fin.ended
                    == self.ended && !fin.fault && fin.pos == pos as int,
                !done ==> !fault,
                !me.need_swap ==> me.write_offs <= self.write_offs,
                done && fault ==> fin.fault && !fin.need_swap && !fin.ended && fin.buff
                    == self.buff@ && fin.offs_xor == self.offs_xor as int && fin.write_offs
                    == self.write_offs as int && fin.bits == bits && fin.nbits == nbits
                    && fin.remaining_len == self.remaining_len as int && fin.current_offs
                    == self.current_offs as int && !self.need_swap && !self.ended && fin.pos
                    == pos as int,
            decreases (if done {
                0int
            } else {
                1int
            }), 8 * (data@.len() - pos) + nbits,
        {
            let ghost fuel0 = 8 * (data@.len() - pos as int) + nbits as int;
            while nbits <= 56 && pos < data.len()
                invariant
                    nbits <= 64,
                    pos <= data@.len(),
                    8 * (data@.len() - pos as int) + nbits as int == fuel0,
                    spec_run(
                        t,
                        d,
                        mk_flow(
                            self.buff@,
                            self.offs_xor as int,
                            self.write_offs as int,
                            bits,
                            nbits,
                            self.remaining_len as int,
                            self.current_offs as int,
                            pos as int,
                        ),
                        data@,
                    ) == fin,
                decreases data@.len() - pos,
            {
                let ghost pre = mk_flow(
                    self.buff@,
                    self.offs_xor as int,
                    self.write_offs as int,
                    bits,
                    nbits,
                    self.remaining_len as int,
                    self.current_offs as int,
                    pos as int,
                );
                bits = bits | ((data[pos] as u64) << (nbits as u64));
                pos = pos + 1;
                nbits = nbits + 8;
                proof {
                    assert(spec_run(
                        t,
                        d,
                        mk_flow(
                            self.buff@,
                            self.offs_xor as int,
                            self.write_offs as int,
                            bits,
                            nbits,
                            self.remaining_len as int,
                            self.current_offs as int,
                            pos as int,
                        ),
                        data@,
                    ) == spec_run(t, d, pre, data@));
                }
            }

            let ghost pre = mk_flow(
                self.buff@,
                self.offs_xor as int,
                self.write_offs as int,
                bits,
                nbits,
                self.remaining_len as int,
                self.current_offs as int,
                pos as int,
            );

            if self.write_offs == 8192 {
                proof {
                    assert(fin == (FlowState { need_swap: true, ..pre }));
                }
                self.need_swap = true;
                done = true;
            } else {
                match decode_bits(bits, nbits, self.table, self.dict_bits) {
                    Ok(res) => {
                    let used = res.used_bits;
                    nbits = nbits - used;
                    bits = bits >> (used as u64);
                    match res.decoded {
                        Symbol::Literal(byte) => {
                            let wo = self.write_offs;
                            let x = self.offs_xor;
                            proof {
                                lemma_xor_phys(wo, x);
                            }
                            let idx = wo ^ x;
                            self.buff[idx as usize] = byte;
                            self.write_offs = wo + 1;
                            proof {
                                assert(spec_run(
                                    t,
                                    d,
                                    mk_flow(
                                        self.buff@,
                                        self.offs_xor as int,
                                        self.write_offs as int,
                                        bits,
                                        nbits,
                                        self.remaining_len as int,
                                        self.current_offs as int,
                                        pos as int,
                                    ),
                                    data@,
                                ) == spec_run(t, d, pre, data@));
                            }
                        },
                        Symbol::Pair { distance, length } => {
                            if distance > 4096 {
                                proof {
                                    assert(fin == (FlowState {
                                        fault: true,
                                        ..mk_flow(
                                            self.buff@,
                                            self.offs_xor as int,
                                            self.write_offs as int,
                                            bits,
                                            nbits,
                                            self.remaining_len as int,
                                            self.current_offs as int,
                                            pos as int,
                                        )
                                    }));
                                }
                                fault = true;
                                done = true;
                            } else {
                                let wo = self.write_offs;
                                let more = self.handle_pair(wo - distance, length);
                                if more {
                                    self.need_swap = true;
                                    proof {
                                        assert(fin == (FlowState {
                                            need_swap: true,
                                            ..mk_flow(
                                                self.buff@,
                                                self.offs_xor as int,
                                                self.write_offs as int,
                                                bits,
                                                nbits,
                                                self.remaining_len as int,
                                                self.current_offs as int,
                                                pos as int,
                                            )
                                        }));
                                    }
                                    done = true;
                                } else {
                                    proof {
                                        assert(spec_run(
                                            t,
                                            d,
                                            mk_flow(
                                                self.buff@,
                                                self.offs_xor as int,
                                                self.write_offs as int,
                                                bits,
                                                nbits,
                                                self.remaining_len as int,
                                                self.current_offs as int,
                                                pos as int,
                                            ),
                                            data@,
                                        ) == spec_run(t, d, pre, data@));
                                    }
                                }
                            }
                        },
                        Symbol::End => {
                            self.ended = true;
                            proof {
                                assert(fin == (FlowState {
                                    ended: true,
                                    ..mk_flow(
                                        self.buff@,
                                        self.offs_xor as int,
                                        self.write_offs as int,
                                        bits,
                                        nbits,
                                        self.remaining_len as int,
                                        self.current_offs as int,
                                        pos as int,
                                    )
                                }));
                            }
                            done = true;
                        },
                    }
                    },
                    Err(_) => {
                        proof {
                            assert(fin == pre);
                        }
                        done = true;
                    },
                }
            }
        }

        self.nbits = nbits;
        self.bits = bits;

        if fault {
            return Err(ExplodeError::InvalidDistance);
        }

        let out_start: u32 = if entry_swap {
            4096
        } else {
            entry_wo
        };
        let lo: usize = (out_start - self.offs_xor) as usize;
        let hi: usize = (self.write_offs - self.offs_xor) as usize;
        let out: &[u8] = slice_subrange(self.buff.as_slice(), lo, hi);
        Ok((pos, out))
    }
}

/// Chunk-boundary indifference: the decode loop is driven only by the
/// not-yet-consumed suffix of the input. Two runs of the same carried state
/// whose cursors face the same remaining bytes evolve identically, their
/// cursors staying in step — so how the compressed stream was cut into
/// chunks cannot change what is decoded.
pub proof fn lemma_run_suffix_agree(
    t: CodeTable,
    dict_bits: u32,
    s1: FlowState,
    data1: Seq<u8>,
    s2: FlowState,
    data2: Seq<u8>,
)
    requires
        0 <= s1.pos <= data1.len(),
        0 <= s2.pos <= data2.len(),
        data1.subrange(s1.pos, data1.len() as int) == data2.subrange(s2.pos, data2.len() as int),
        s2 == (FlowState { pos: s2.pos, ..s1 }),
    ensures
        ({
            let f1 = spec_run(t, dict_bits, s1, data1);
            let f2 = spec_run(t, dict_bits, s2, data2);
            &&& f1.pos - s1.pos == f2.pos - s2.pos
            &&& f1 == (FlowState { pos: f1.pos, ..f2 })
        }),
    decreases 8 * (data1.len() - s1.pos) + s1.nbits, data1.len() - s1.pos,
{
    let rest1 = data1.subrange(s1.pos, data1.len() as int);
    let rest2 = data2.subrange(s2.pos, data2.len() as int);
    assert(rest1.len() == data1.len() - s1.pos);
    assert(rest2.len() == data2.len() - s2.pos);
    assert(rest1.len() == rest2.len());
    if s1.nbits <= 56 && s1.pos < data1.len() {
        assert(s2.pos < data2.len());
        assert(rest1[0] == data1[s1.pos + 0]);
        assert(rest2[0] == data2[s2.pos + 0]);
        assert(data1[s1.pos] == rest1[0] && data2[s2.pos] == rest2[0]);
        let n1 = FlowState {
            bits: s1.bits | ((data1[s1.pos] as u64) << (s1.nbits as u64)),
            nbits: (s1.nbits + 8) as u32,
            pos: s1.pos + 1,
            ..s1
        };
        let n2 = FlowState {
            bits: s2.bits | ((data2[s2.pos] as u64) << (s2.nbits as u64)),
            nbits: (s2.nbits + 8) as u32,
            pos: s2.pos + 1,
            ..s2
        };
        assert(data1.subrange(n1.pos, data1.len() as int) =~= data2.subrange(
            n2.pos,
            data2.len() as int,
        )) by {
            let a = data1.subrange(n1.pos, data1.len() as int);
            let b = data2.subrange(n2.pos, data2.len() as int);
            assert(a.len() == data1.len() - n1.pos);
            assert(b.len() == data2.len() - n2.pos);
            assert forall|i: int| 0 <= i < a.len() implies a[i] == b[i] by {
                assert(a[i] == data1[n1.pos + i]);
                assert(b[i] == data2[n2.pos + i]);
                assert(rest1[i + 1] == data1[s1.pos + (i + 1)]);
                assert(rest2[i + 1] == data2[s2.pos + (i + 1)]);
                assert(rest1[i + 1] == rest2[i + 1]);
            }
        }
        assert(n2 == (FlowState { pos: n2.pos, ..n1 }));
        lemma_run_suffix_agree(t, dict_bits, n1, data1, n2, data2);
    } else if s1.write_offs == 8192 {
        assert(spec_run(t, dict_bits, s1, data1) == (FlowState { need_swap: true, ..s1 }));
        assert(spec_run(t, dict_bits, s2, data2) == (FlowState { need_swap: true, ..s2 }));
    } else {
        match spec_decode(t, s1.bits, s1.nbits, dict_bits) {
            Err(_) => {},
            Ok(o) => {
                let n1 = FlowState {
                    bits: s1.bits >> (o.used_bits as u64),
                    nbits: (s1.nbits - o.used_bits) as u32,
                    ..s1
                };
                let n2 = FlowState {
                    bits: s2.bits >> (o.used_bits as u64),
                    nbits: (s2.nbits - o.used_bits) as u32,
                    ..s2
                };
                match o.decoded {
                    Symbol::Literal(b) => {
                        let m1 = FlowState {
                            buff: n1.buff.update(phys_addr(n1.write_offs, n1.offs_xor), b),
                            write_offs: n1.write_offs + 1,
                            ..n1
                        };
                        let m2 = FlowState {
                            buff: n2.buff.update(phys_addr(n2.write_offs, n2.offs_xor), b),
                            write_offs: n2.write_offs + 1,
                            ..n2
                        };
                        assert(m2 == (FlowState { pos: m2.pos, ..m1 }));
                        lemma_run_suffix_agree(t, dict_bits, m1, data1, m2, data2);
                    },
                    Symbol::Pair { distance, length } => {
                        if distance > 4096 {
                        } else {
                            let alen: int = if length <= 8192 - n1.write_offs {
                                length as int
                            } else {
                                8192 - n1.write_offs
                            };
                            let m1 = FlowState {
                                buff: lz_copy(
                                    n1.buff,
                                    n1.offs_xor,
                                    n1.write_offs - distance,
                                    n1.write_offs,
                                    alen as nat,
                                ),
                                write_offs: n1.write_offs + alen,
                                current_offs: n1.write_offs - distance + alen,
                                remaining_len: length - alen,
                                ..n1
                            };
                            let m2 = FlowState {
                                buff: lz_copy(
                                    n2.buff,
                                    n2.offs_xor,
                                    n2.write_offs - distance,
                                    n2.write_offs,
                                    alen as nat,
                                ),
                                write_offs: n2.write_offs + alen,
                                current_offs: n2.write_offs - distance + alen,
                                remaining_len: length - alen,
                                ..n2
                            };
                            if m1.remaining_len != 0 {
                            } else {
                                assert(m2 == (FlowState { pos: m2.pos, ..m1 }));
                                lemma_run_suffix_agree(t, dict_bits, m1, data1, m2, data2);
                            }
                        }
                    },
                    Symbol::End => {},
                }
            },
        }
    }
}

/// Idempotent reset: a decoder that has been reset and a freshly constructed
/// one are in the same pre-header state, so on any input they settle the
/// headers identically, adopt the same dictionary width, and start decoding
/// from the same flow state — only the retained window bytes can differ.
pub proof fn lemma_pre_header_flows_agree(a: Exploder, b: Exploder, data: Seq<u8>)
    requires
        pre_header_state(a),
        pre_header_state(b),
    ensures
        spec_hdr_err(a, data) == spec_hdr_err(b, data),
        spec_dict_after(a, data) == spec_dict_after(b, data),
        spec_start_flow(a, data) == (FlowState { buff: a.buff@, ..spec_start_flow(b, data) }),
{
    assert(spec_start_flow(a, data) =~= (FlowState { buff: a.buff@, ..spec_start_flow(b, data) }));
}

/// Builds a flow state carrying the given values, with no pending swap, no
/// end reached, and no fault.
pub open spec fn mk_flow(
    buff: Seq<u8>,
    offs_xor: int,
    write_offs: int,
    bits: u64,
    nbits: u32,
    remaining_len: int,
    current_offs: int,
    pos: int,
) -> FlowState {
    FlowState {
        buff,
        offs_xor,
        write_offs,
        bits,
        nbits,
        remaining_len,
        current_offs,
        need_swap: false,
        ended: false,
        fault: false,
        pos,
    }
}

} // verus!
