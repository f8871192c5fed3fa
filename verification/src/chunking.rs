//! Processing large texts in overlapping chunks.
use vstd::prelude::*;
use crate::text::{sbytes, count_byte, str_slice, bytes_count_prefix};

verus! {

/// `anyhow::Error`, the error that chunk processors return.
#[verifier::external_type_specification]
#[verifier::external_body]
pub struct ExAnyhowError(anyhow::Error);

/// Splits a text into chunks of `chunk_size` bytes, each after the first
/// starting `overlap` bytes before the end of the previous one.
pub struct ChunkProcessor<T> {
    chunk_size: usize,
    overlap: usize,
    _phantom: std::marker::PhantomData<T>,
}

/// The start of the chunk after the one starting at `off`.
pub open spec fn next_offset(len: nat, c: nat, o: nat, off: nat) -> nat {
    if off + c < len {
        if off + c >= o { (off + c - o) as nat } else { 0 }
    } else {
        off + c
    }
}

/// The byte ranges `(start, end)` of the chunks of a text of `len` bytes,
/// from the chunk starting at `off` on.
pub open spec fn chunk_plan(len: nat, c: nat, o: nat, off: nat) -> Seq<(nat, nat)>
    decreases len - off,
{
    if off >= len {
        Seq::empty()
    } else {
        let end = if off + c < len { off + c } else { len };
        let nxt = next_offset(len, c, o, off);
        if nxt <= off || nxt >= len {
            seq![(off, end)]
        } else {
            seq![(off, end)] + chunk_plan(len, c, o, nxt)
        }
    }
}

/// The chunking of a text of `len` bytes ends: the text is empty, fits in one
/// chunk, or each chunk advances past the previous start.
pub open spec fn plan_terminates(len: nat, c: nat, o: nat) -> bool {
    len == 0 || (c > 0 && (len <= c || c > o))
}

/// Every chunk boundary of the plan is a character boundary of `b`.
pub open spec fn plan_on_char_boundaries(b: Seq<u8>, plan: Seq<(nat, nat)>) -> bool {
    forall|k: int|
        0 <= k < plan.len() ==> vstd::utf8::is_char_boundary(b, #[trigger] plan[k].0 as int)
            && vstd::utf8::is_char_boundary(b, plan[k].1 as int)
}

/// The number of lines before byte `start`.
pub open spec fn line_offset_at(b: Seq<u8>, start: nat) -> nat {
    count_byte(b.subrange(0, start as int), 10u8)
}

/// The concatenation of the result vectors.
pub open spec fn flatten<T>(outs: Seq<Seq<T>>) -> Seq<T>
    decreases outs.len(),
{
    if outs.len() == 0 {
        Seq::empty()
    } else {
        flatten(outs.drop_last()) + outs.last()
    }
}

proof fn lemma_plan_advances(len: nat, c: nat, o: nat, off: nat)
    requires
        plan_terminates(len, c, o),
        off < len,
        off == 0 || c > o,
    ensures
        next_offset(len, c, o, off) > off,
        next_offset(len, c, o, off) < len ==> c > o,
{
}

impl<T> ChunkProcessor<T> {
    /// The chunk size in bytes.
    pub closed spec fn chunk_size_view(&self) -> nat {
        self.chunk_size as nat
    }

    /// The overlap in bytes.
    pub closed spec fn overlap_view(&self) -> nat {
        self.overlap as nat
    }

    /// A processor with the given chunk size and overlap.
    pub fn new(chunk_size: usize, overlap: usize) -> (r: Self)
        ensures
            r.chunk_size_view() == chunk_size,
            r.overlap_view() == overlap,
    {
        ChunkProcessor { chunk_size, overlap, _phantom: std::marker::PhantomData }
    }

    /// Calls `process_chunk` on each chunk of `source` with the number of lines
    /// before the chunk, in order, and concatenates the results; stops at the
    /// first error and returns it.
    #[verifier::loop_isolation(false)]
    pub fn process<F>(&self, source: &str, mut process_chunk: F) -> (r: Result<Vec<T>, anyhow::Error>)
        where
            F: FnMut(&str, usize) -> Result<Vec<T>, anyhow::Error>,
        requires
            plan_terminates(sbytes(source).len(), self.chunk_size_view(), self.overlap_view()),
            plan_on_char_boundaries(
                sbytes(source),
                chunk_plan(sbytes(source).len(), self.chunk_size_view(), self.overlap_view(), 0),
            ),
            forall|s: &str, n: usize| sbytes(s).len() <= sbytes(source).len() ==> call_requires(process_chunk, (s, n)),
        ensures
            ({
                let b = sbytes(source);
                let plan = chunk_plan(b.len(), self.chunk_size_view(), self.overlap_view(), 0);
                match r {
                    Ok(v) => exists|outs: Seq<Seq<T>>, args: Seq<&str>|
                        #[trigger] calls_succeeded(process_chunk, b, plan, outs, args)
                            && outs.len() == plan.len() && v@ == flatten(outs),
                    Err(e) => exists|outs: Seq<Seq<T>>, args: Seq<&str>, last: &str|
                        #[trigger] calls_succeeded(process_chunk, b, plan, outs, args)
                            && outs.len() < plan.len()
                            && #[trigger] chunk_call(process_chunk, b, plan, outs.len() as int, last, Err(e)),
                }
            }),
    {
        let bytes = source.as_bytes();
        let len = bytes.len();
        let c = self.chunk_size;
        let o = self.overlap;
        let ghost plan = chunk_plan(len as nat, c as nat, o as nat, 0);
        let mut all_results: Vec<T> = Vec::new();
        let mut offset: usize = 0;
        let ghost mut outs: Seq<Seq<T>> = Seq::empty();
        let ghost mut args: Seq<&str> = Seq::empty();
        let ghost f0 = process_chunk;
        while offset < len
            invariant
                process_chunk == f0,
                bytes@ == sbytes(source),
                len == bytes@.len(),
                c == self.chunk_size_view(),
                o == self.overlap_view(),
                plan == chunk_plan(len as nat, c as nat, o as nat, 0),
                plan_terminates(len as nat, c as nat, o as nat),
                plan_on_char_boundaries(bytes@, plan),
                offset == 0 || c > o || offset >= len,
                outs.len() <= plan.len(),
                plan == plan.subrange(0, outs.len() as int) + chunk_plan(len as nat, c as nat, o as nat, offset as nat),
                all_results@ == flatten(outs),
                forall|s: &str, n: usize| sbytes(s).len() <= sbytes(source).len() ==> call_requires(process_chunk, (s, n)),
                calls_succeeded(process_chunk, bytes@, plan, outs, args),
            decreases len - offset,
        {
            let ghost k = outs.len() as int;
            let end = if c < len - offset { offset + c } else { len };
            proof {
                lemma_plan_advances(len as nat, c as nat, o as nat, offset as nat);
                let rest = chunk_plan(len as nat, c as nat, o as nat, offset as nat);
                assert(rest[0] == (offset as nat, end as nat));
                assert(rest.len() > 0);
                let pre = plan.subrange(0, k);
                assert(plan[k] == (pre + rest)[k]);
                assert(vstd::utf8::is_char_boundary(bytes@, plan[k].0 as int));
            }
            let chunk = str_slice(source, offset, end);
            let line_offset = bytes_count_prefix(bytes, 10u8, offset);
            let result = process_chunk(chunk, line_offset);
            let chunk_results = match result {
                Ok(v) => v,
                Err(e) => {
                    assert(chunk_call(process_chunk, bytes@, plan, outs.len() as int, chunk, Err(e)));
                    assert(calls_succeeded(process_chunk, bytes@, plan, outs, args));
                    assert(outs.len() < plan.len());
                    return Err(e);
                },
            };
            let ghost outs_before = outs;
            proof {
                assert(chunk_call(process_chunk, bytes@, plan, k, chunk, Ok(chunk_results)));
                lemma_calls_push(process_chunk, bytes@, plan, outs, args, chunk, chunk_results);
                outs = outs.push(chunk_results@);
                args = args.push(chunk);
            }
            let ghost before = all_results@;
            let mut chunk_results = chunk_results;
            all_results.append(&mut chunk_results);
            let ghost old_offset = offset;
            if c < len - offset {
                offset = offset + c;
                if offset >= o {
                    offset = offset - o;
                } else {
                    offset = 0;
                }
            } else {
                offset = len;
            }
            proof {
                let rest = chunk_plan(len as nat, c as nat, o as nat, old_offset as nat);
                let pre = plan.subrange(0, k);
                let tail = chunk_plan(len as nat, c as nat, o as nat, offset as nat);
                let nxt = next_offset(len as nat, c as nat, o as nat, old_offset as nat);
                if old_offset + c < len {
                    assert(offset as nat == nxt);
                    assert(rest == seq![plan[k]] + tail);
                } else {
                    assert(nxt >= len);
                    assert(tail =~= Seq::<(nat, nat)>::empty());
                    assert(rest =~= seq![plan[k]]);
                    assert(rest =~= seq![plan[k]] + tail);
                }
                assert(plan.subrange(0, k + 1) =~= pre.push(plan[k]));
                assert(plan =~= plan.subrange(0, outs.len() as int) + tail);
                assert(outs.drop_last() =~= outs_before);
                assert(flatten(outs) == flatten(outs.drop_last()) + outs.last());
                assert(all_results@ =~= before + outs.last());
                assert(all_results@ =~= flatten(outs));
            }
        }
        proof {
            assert(chunk_plan(len as nat, c as nat, o as nat, offset as nat) =~= Seq::<(nat, nat)>::empty());
            assert(plan.subrange(0, outs.len() as int) =~= plan);
        }
        Ok(all_results)
    }
}

/// The call on chunk `k` of `plan` received `arg`, the text of the chunk, and
/// the number of lines before it, and may have returned `res`.
pub open spec fn chunk_call<T, F: FnMut(&str, usize) -> Result<Vec<T>, anyhow::Error>>(
    f: F,
    b: Seq<u8>,
    plan: Seq<(nat, nat)>,
    k: int,
    arg: &str,
    res: Result<Vec<T>, anyhow::Error>,
) -> bool {
    &&& sbytes(arg) == b.subrange(plan[k].0 as int, plan[k].1 as int)
    &&& call_ensures(f, (arg, line_offset_at(b, plan[k].0) as usize), res)
}

/// The calls on the first `outs.len()` chunks of `plan` received `args` and
/// returned `Ok` with the results `outs`.
pub open spec fn calls_succeeded<T, F: FnMut(&str, usize) -> Result<Vec<T>, anyhow::Error>>(
    f: F,
    b: Seq<u8>,
    plan: Seq<(nat, nat)>,
    outs: Seq<Seq<T>>,
    args: Seq<&str>,
) -> bool {
    &&& outs.len() == args.len()
    &&& outs.len() <= plan.len()
    &&& forall|k: int| 0 <= k < outs.len() ==> exists|w: Vec<T>|
        w@ == #[trigger] outs[k] && chunk_call(f, b, plan, k, args[k], Ok(w))
}

proof fn lemma_calls_push<T, F: FnMut(&str, usize) -> Result<Vec<T>, anyhow::Error>>(
    f: F,
    b: Seq<u8>,
    plan: Seq<(nat, nat)>,
    outs: Seq<Seq<T>>,
    args: Seq<&str>,
    arg: &str,
    w: Vec<T>,
)
    requires
        calls_succeeded(f, b, plan, outs, args),
        outs.len() < plan.len(),
        chunk_call(f, b, plan, outs.len() as int, arg, Ok(w)),
    ensures
        calls_succeeded(f, b, plan, outs.push(w@), args.push(arg)),
{
    let outs2 = outs.push(w@);
    let args2 = args.push(arg);
    assert forall|k: int| 0 <= k < outs2.len() implies exists|w2: Vec<T>|
        w2@ == #[trigger] outs2[k] && chunk_call(f, b, plan, k, args2[k], Ok(w2)) by {
        if k < outs.len() {
            assert(outs2[k] == outs[k]);
            assert(args2[k] == args[k]);
        } else {
            assert(chunk_call(f, b, plan, k, args2[k], Ok(w)));
        }
    }
}

/// With chunks longer than their overlap, the chunks of a non-empty text
/// from offset `off` cover it without gaps: the first starts at `off`, the
/// last ends at the end of the text, each is non-empty and at most `c` long,
/// and each starts after the previous one starts and no later than it ends.
pub proof fn law_chunks_cover(len: nat, c: nat, o: nat, off: nat)
    requires
        c > o,
        off < len,
    ensures
        chunk_plan(len, c, o, off).len() > 0,
        chunk_plan(len, c, o, off)[0].0 == off,
        chunk_plan(len, c, o, off).last().1 == len,
        forall|k: int| 0 <= k < chunk_plan(len, c, o, off).len() ==> {
            let p = #[trigger] chunk_plan(len, c, o, off)[k];
            p.0 < p.1 <= p.0 + c
        },
        forall|k: int| 0 <= k < chunk_plan(len, c, o, off).len() - 1 ==> {
            let p = #[trigger] chunk_plan(len, c, o, off)[k];
            let q = chunk_plan(len, c, o, off)[k + 1];
            p.0 < q.0 <= p.1
        },
    decreases len - off,
{
    let plan = chunk_plan(len, c, o, off);
    let end = if off + c < len { off + c } else { len };
    let nxt = next_offset(len, c, o, off);
    if nxt <= off || nxt >= len {
        assert(plan == seq![(off, end)]);
    } else {
        law_chunks_cover(len, c, o, nxt);
        let rest = chunk_plan(len, c, o, nxt);
        assert(plan == seq![(off, end)] + rest);
        assert forall|k: int| 0 <= k < plan.len() implies {
            let p = #[trigger] plan[k];
            p.0 < p.1 <= p.0 + c
        } by {
            if k > 0 {
                assert(plan[k] == rest[k - 1]);
            }
        }
        assert forall|k: int| 0 <= k < plan.len() - 1 implies {
            let p = #[trigger] plan[k];
            let q = plan[k + 1];
            p.0 < q.0 <= p.1
        } by {
            if k > 0 {
                assert(plan[k] == rest[k - 1]);
                assert(plan[k + 1] == rest[k]);
            }
        }
    }
}

/// Whether every chunk of `source` (chunks of `c` bytes overlapping by `o`)
/// starts and ends on a character boundary.
pub fn chunks_on_char_boundaries(source: &str, c: usize, o: usize) -> (r: bool)
    requires
        c > o,
    ensures
        r == plan_on_char_boundaries(sbytes(source), chunk_plan(sbytes(source).len(), c as nat, o as nat, 0)),
{
    let ghost b = sbytes(source);
    let len = source.as_bytes().len();
    let mut off: usize = 0;
    let ghost full = chunk_plan(len as nat, c as nat, o as nat, 0);
    let ghost mut done: Seq<(nat, nat)> = Seq::empty();
    if len == 0 {
        assert(full =~= Seq::<(nat, nat)>::empty());
        return true;
    }
    loop
        invariant
            b == sbytes(source),
            len == b.len(),
            c > o,
            off < len,
            full == chunk_plan(len as nat, c as nat, o as nat, 0),
            full == done + chunk_plan(len as nat, c as nat, o as nat, off as nat),
            plan_on_char_boundaries(b, done),
        decreases len - off,
    {
        let inside = c < len - off;
        let end = if inside { off + c } else { len };
        let ok = source.is_char_boundary(off) && source.is_char_boundary(end);
        let ghost here = chunk_plan(len as nat, c as nat, o as nat, off as nat);
        let nxt = if inside { off + c - o } else { len };
        if !ok {
            assert(here[0] == (off as nat, end as nat));
            let ghost k = done.len() as int;
            assert(here.len() > 0);
            assert(0 <= k < full.len());
            assert(full[k] == here[0]);
            assert(!(vstd::utf8::is_char_boundary(b, full[k].0 as int) && vstd::utf8::is_char_boundary(b, full[k].1 as int)));
            assert(!plan_on_char_boundaries(b, full)) by {
                if plan_on_char_boundaries(b, full) {
                    assert(vstd::utf8::is_char_boundary(b, full[k].0 as int));
                }
            }
            assert(sbytes(source).len() == len as nat);
            return false;
        }
        proof {
            let d2 = done.push((off as nat, end as nat));
            assert forall|k: int| 0 <= k < d2.len() implies vstd::utf8::is_char_boundary(b, #[trigger] d2[k].0 as int)
                && vstd::utf8::is_char_boundary(b, d2[k].1 as int) by {
                if k < done.len() {
                    assert(d2[k] == done[k]);
                }
            }
            done = d2;
        }
        if nxt >= len || nxt <= off {
            assert(here =~= seq![(off as nat, end as nat)]);
            assert(full =~= done);
            return true;
        }
        assert(here =~= seq![(off as nat, end as nat)] + chunk_plan(len as nat, c as nat, o as nat, nxt as nat));
        assert(full =~= done + chunk_plan(len as nat, c as nat, o as nat, nxt as nat));
        off = nxt;
    }
}

} // verus!
