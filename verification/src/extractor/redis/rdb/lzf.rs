//! The compression of long strings in a snapshot.
//!
//! Compressed data is a run of chunks. A chunk starts with a control
//! byte. Below 32 it counts literal bytes: one more than its value follow
//! and are copied. From 32 on it is a reference into what was written
//! already: its upper three bits give the length, less two, with seven
//! standing for seven and the value of one more byte; its lower five
//! bits and the byte after give the distance back, less one.

use vstd::prelude::*;

verus! {

/// `out` with `n` more bytes, each a copy of the byte `off` places
/// before it.
pub open spec fn copy_back(out: Seq<u8>, off: int, n: nat) -> Seq<u8>
    decreases n,
{
    if n == 0 {
        out
    } else {
        copy_back(out.push(out[out.len() - off]), off, (n - 1) as nat)
    }
}

/// What `input` expands to when `out` is what was expanded before it;
/// `None` where a chunk is cut short or refers to before the start.
pub open spec fn expand(input: Seq<u8>, out: Seq<u8>) -> Option<Seq<u8>>
    decreases input.len(),
{
    if input.len() == 0 {
        Some(out)
    } else {
        let ctrl = input[0] as int;
        if ctrl < 32 {
            if input.len() < ctrl + 2 {
                None
            } else {
                expand(input.skip(ctrl + 2), out + input.subrange(1, ctrl + 2))
            }
        } else {
            let head: int = if ctrl / 32 == 7 {
                2
            } else {
                1
            };
            if input.len() < head + 1 {
                None
            } else {
                let len = if ctrl / 32 == 7 {
                    7 + input[1]
                } else {
                    ctrl / 32
                };
                let off = (ctrl % 32) * 256 + input[head] + 1;
                if off > out.len() {
                    None
                } else {
                    expand(input.skip(head + 1), copy_back(out, off, (len + 2) as nat))
                }
            }
        }
    }
}

/// What `input` expands to, where that is `expected` bytes long.
pub open spec fn decompressed(input: Seq<u8>, expected: int) -> Option<Seq<u8>> {
    match expand(input, Seq::empty()) {
        Some(out) => if out.len() == expected {
            Some(out)
        } else {
            None
        },
        None => None,
    }
}

/// Copying `n` bytes back makes the output `n` bytes longer.
pub proof fn lemma_copy_back_len(out: Seq<u8>, off: int, n: nat)
    ensures
        copy_back(out, off, n).len() == out.len() + n,
    decreases n,
{
    if n > 0 {
        lemma_copy_back_len(out.push(out[out.len() - off]), off, (n - 1) as nat);
    }
}

/// Expanding never makes what was expanded before shorter.
pub proof fn lemma_expand_grows(input: Seq<u8>, out: Seq<u8>)
    ensures
        expand(input, out) matches Some(r) ==> r.len() >= out.len(),
    decreases input.len(),
{
    if input.len() > 0 {
        let ctrl = input[0] as int;
        if ctrl < 32 {
            if input.len() >= ctrl + 2 {
                lemma_expand_grows(input.skip(ctrl + 2), out + input.subrange(1, ctrl + 2));
            }
        } else {
            let head: int = if ctrl / 32 == 7 {
                2
            } else {
                1
            };
            if input.len() >= head + 1 {
                let len = if ctrl / 32 == 7 {
                    7 + input[1]
                } else {
                    ctrl / 32
                };
                let off = (ctrl % 32) * 256 + input[head] + 1;
                if off <= out.len() {
                    lemma_copy_back_len(out, off, (len + 2) as nat);
                    lemma_expand_grows(input.skip(head + 1), copy_back(out, off, (len + 2) as nat));
                }
            }
        }
    }
}

/// Expands the bytes `from .. to` of `buf`, which have to expand to
/// `expected` bytes.
pub fn decompress(buf: &[u8], from: usize, to: usize, expected: usize) -> (r: Option<Vec<u8>>)
    requires
        from <= to <= buf.len(),
    ensures
        match r {
            Some(out) => decompressed(buf@.subrange(from as int, to as int), expected as int)
                == Some(out@),
            None => decompressed(buf@.subrange(from as int, to as int), expected as int) is None,
        },
{
    let ghost input = buf@.subrange(from as int, to as int);
    let mut out: Vec<u8> = Vec::new();
    let mut pos: usize = from;
    proof {
        assert(buf@.subrange(pos as int, to as int) =~= input);
    }
    while pos < to
        invariant
            from <= pos <= to <= buf.len(),
            input == buf@.subrange(from as int, to as int),
            out@.len() <= expected,
            expand(input, Seq::empty()) == expand(buf@.subrange(pos as int, to as int), out@),
        decreases to - pos,
    {
        let ghost rest = buf@.subrange(pos as int, to as int);
        let ghost before = out@;
        let ctrl: usize = buf[pos] as usize;
        proof {
            assert(rest[0] == buf@[pos as int]);
        }
        if ctrl < 32 {
            if to - pos < ctrl + 2 {
                return None;
            }
            if expected - out.len() < ctrl + 1 {
                proof {
                    let next = before + rest.subrange(1, ctrl + 2);
                    lemma_expand_grows(rest.skip(ctrl + 2), next);
                }
                return None;
            }
            let mut k: usize = 0;
            while k < ctrl + 1
                invariant
                    k <= ctrl + 1,
                    pos + ctrl + 2 <= to <= buf.len(),
                    rest == buf@.subrange(pos as int, to as int),
                    out@ == before + rest.subrange(1, 1 + k),
                decreases ctrl + 1 - k,
            {
                out.push(buf[pos + 1 + k]);
                k = k + 1;
                proof {
                    assert(rest[k as int] == buf@[pos + k]);
                    assert(out@ =~= before + rest.subrange(1, 1 + k));
                }
            }
            proof {
                assert(rest.skip(ctrl + 2) =~= buf@.subrange(pos + ctrl + 2, to as int));
            }
            pos = pos + ctrl + 2;
        } else {
            let head: usize = if ctrl / 32 == 7 {
                2
            } else {
                1
            };
            if to - pos < head + 1 {
                return None;
            }
            proof {
                assert(rest[1] == buf@[pos + 1]);
                assert(rest[head as int] == buf@[pos + head]);
            }
            let len: usize = if ctrl / 32 == 7 {
                7 + buf[pos + 1] as usize
            } else {
                ctrl / 32
            };
            let off: usize = (ctrl % 32) * 256 + buf[pos + head] as usize + 1;
            if off > out.len() {
                return None;
            }
            if expected - out.len() < len + 2 {
                proof {
                    let next = copy_back(before, off as int, (len + 2) as nat);
                    lemma_copy_back_len(before, off as int, (len + 2) as nat);
                    lemma_expand_grows(rest.skip(head + 1), next);
                }
                return None;
            }
            let mut k: usize = 0;
            while k < len + 2
                invariant
                    k <= len + 2,
                    1 <= off <= before.len(),
                    out@.len() == before.len() + k,
                    out@.len() + (len + 2 - k) <= expected,
                    copy_back(before, off as int, (len + 2) as nat) == copy_back(
                        out@,
                        off as int,
                        (len + 2 - k) as nat,
                    ),
                decreases len + 2 - k,
            {
                let b = out[out.len() - off];
                out.push(b);
                k = k + 1;
            }
            proof {
                assert(rest.skip(head + 1) =~= buf@.subrange(pos + head + 1, to as int));
            }
            pos = pos + head + 1;
        }
    }
    proof {
        assert(buf@.subrange(pos as int, to as int).len() == 0);
    }
    if out.len() == expected {
        Some(out)
    } else {
        None
    }
}

} // verus!
