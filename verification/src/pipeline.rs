use vstd::prelude::*;

verus! {

use crate::lines::spec_lines;
use crate::lines::spec_normalize;
use crate::lines::split_lines;
use crate::lines::decode_line;
use crate::lines::normalize_line;
use crate::parser::Parser;
use vstd::utf8::valid_utf8;
use vstd::utf8::decode_utf8;
use vstd::arithmetic::div_mod::lemma_mod_bound;

/// A worker flushes its blob once it holds this many bytes,
pub const BYTES_BLOB_TARGET: usize = 4194304;

/// or this many records, whichever comes first.
pub const LINES_BLOB_MAX: usize = 16384;

/// Line-queue capacity per worker, for the runner around this library.
pub const LINES_CHAN_FACTOR: usize = 64;

/// Blob-queue capacity per worker, for the runner around this library.
pub const BLOBS_CHAN_FACTOR: usize = 4;

/// Whether the pipeline emits a record for one raw line (terminator
/// included): the line must decode as UTF-8 and, once its terminator is
/// stripped, be accepted by the transformation.
pub open spec fn line_emits<P: Parser>(p: P, bytes: Seq<u8>) -> bool {
    valid_utf8(bytes) && p.spec_emits(spec_normalize(decode_utf8(bytes)))
}

/// The bytes one raw line contributes to the output: the serialized record,
/// then the terminator the pipeline appends; empty when no record is emitted.
pub open spec fn line_output<P: Parser>(p: P, bytes: Seq<u8>) -> Seq<u8> {
    if line_emits(p, bytes) {
        p.spec_record(spec_normalize(decode_utf8(bytes))).push(10u8)
    } else {
        Seq::empty()
    }
}

/// How many of the raw lines emit a record, applied single-threaded.
pub open spec fn spec_emitted<P: Parser>(p: P, lines: Seq<Seq<u8>>) -> nat
    decreases lines.len(),
{
    if lines.len() == 0 {
        0
    } else {
        spec_emitted(p, lines.drop_last()) + (if line_emits(p, lines.last()) {
            1nat
        } else {
            0nat
        })
    }
}

/// The output of applying the transformation to every line in input order.
pub open spec fn spec_output<P: Parser>(p: P, lines: Seq<Seq<u8>>) -> Seq<u8>
    decreases lines.len(),
{
    if lines.len() == 0 {
        Seq::empty()
    } else {
        spec_output(p, lines.drop_last()) + line_output(p, lines.last())
    }
}

/// Which worker dequeues line `i`: the schedule models the nondeterministic
/// race between workers on the shared line queue. Any usize sequence is a
/// valid schedule.
pub open spec fn worker_of(sched: Seq<usize>, workers: int, i: int) -> int {
    if sched.len() == 0 {
        0
    } else {
        (sched[i % sched.len() as int] as int) % workers
    }
}

/// Records emitted by worker `w` among the first `n` lines.
pub open spec fn count_assigned<P: Parser>(
    p: P,
    lines: Seq<Seq<u8>>,
    sched: Seq<usize>,
    workers: int,
    w: int,
    n: int,
) -> nat
    decreases n,
{
    if n <= 0 {
        0
    } else {
        count_assigned(p, lines, sched, workers, w, n - 1) + (if worker_of(sched, workers, n - 1)
            == w && line_emits(p, lines[n - 1]) {
            1nat
        } else {
            0nat
        })
    }
}

/// Output bytes produced by worker `w` from the first `n` lines, in order.
pub open spec fn output_assigned<P: Parser>(
    p: P,
    lines: Seq<Seq<u8>>,
    sched: Seq<usize>,
    workers: int,
    w: int,
    n: int,
) -> Seq<u8>
    decreases n,
{
    if n <= 0 {
        Seq::empty()
    } else {
        output_assigned(p, lines, sched, workers, w, n - 1) + (if worker_of(
            sched,
            workers,
            n - 1,
        ) == w {
            line_output(p, lines[n - 1])
        } else {
            Seq::empty()
        })
    }
}

/// Sum of the per-worker counts over workers `0 .. wmax`.
pub open spec fn sum_assigned<P: Parser>(
    p: P,
    lines: Seq<Seq<u8>>,
    sched: Seq<usize>,
    workers: int,
    wmax: int,
    n: int,
) -> nat
    decreases wmax,
{
    if wmax <= 0 {
        0
    } else {
        sum_assigned(p, lines, sched, workers, wmax - 1, n) + count_assigned(
            p,
            lines,
            sched,
            workers,
            wmax - 1,
            n,
        )
    }
}

/// Concatenation of the per-worker outputs for workers `0 .. wmax`.
pub open spec fn outputs_upto<P: Parser>(
    p: P,
    lines: Seq<Seq<u8>>,
    sched: Seq<usize>,
    workers: int,
    wmax: int,
) -> Seq<u8>
    decreases wmax,
{
    if wmax <= 0 {
        Seq::empty()
    } else {
        outputs_upto(p, lines, sched, workers, wmax - 1) + output_assigned(
            p,
            lines,
            sched,
            workers,
            wmax - 1,
            lines.len() as int,
        )
    }
}

/// The pipeline's whole output under a schedule: per-producer-ordered,
/// globally merged in worker order.
pub open spec fn sim_output<P: Parser>(
    p: P,
    lines: Seq<Seq<u8>>,
    sched: Seq<usize>,
    workers: int,
) -> Seq<u8> {
    outputs_upto(p, lines, sched, workers, workers)
}

/// Concatenation of a sequence of blobs, in receipt order.
pub open spec fn spec_concat(bs: Seq<Seq<u8>>) -> Seq<u8>
    decreases bs.len(),
{
    if bs.len() == 0 {
        Seq::empty()
    } else {
        spec_concat(bs.drop_last()) + bs.last()
    }
}

proof fn lemma_sum_assigned_step<P: Parser>(
    p: P,
    lines: Seq<Seq<u8>>,
    sched: Seq<usize>,
    workers: int,
    wmax: int,
    n: int,
)
    requires
        n >= 1,
    ensures
        sum_assigned(p, lines, sched, workers, wmax, n) == sum_assigned(
            p,
            lines,
            sched,
            workers,
            wmax,
            n - 1,
        ) + (if worker_of(sched, workers, n - 1) < wmax && worker_of(sched, workers, n - 1) >= 0
            && line_emits(p, lines[n - 1]) {
            1nat
        } else {
            0nat
        }),
    decreases wmax,
{
    if wmax > 0 {
        lemma_sum_assigned_step(p, lines, sched, workers, wmax - 1, n);
    }
}

/// Count conservation: however the lines are distributed over the workers,
/// the per-worker record counts add up to the single-threaded count.
pub proof fn lemma_count_conservation<P: Parser>(
    p: P,
    lines: Seq<Seq<u8>>,
    sched: Seq<usize>,
    workers: int,
    n: int,
)
    requires
        workers >= 1,
        0 <= n <= lines.len(),
    ensures
        sum_assigned(p, lines, sched, workers, workers, n) == spec_emitted(p, lines.take(n)),
    decreases n,
{
    if n == 0 {
        assert(lines.take(0) =~= Seq::<Seq<u8>>::empty());
        lemma_sum_assigned_zero(p, lines, sched, workers, workers, n);
    } else {
        lemma_count_conservation(p, lines, sched, workers, n - 1);
        lemma_sum_assigned_step(p, lines, sched, workers, workers, n);
        lemma_worker_of_bound(sched, workers, n - 1);
        assert(lines.take(n).drop_last() =~= lines.take(n - 1));
        assert(lines.take(n).last() == lines[n - 1]);
    }
}

proof fn lemma_concat_cons(a: Seq<u8>, rest: Seq<Seq<u8>>)
    ensures
        spec_concat(seq![a] + rest) == a + spec_concat(rest),
    decreases rest.len(),
{
    if rest.len() == 0 {
        assert(seq![a] + rest =~= seq![a]);
        assert(seq![a].drop_last() =~= Seq::<Seq<u8>>::empty());
        assert(seq![a].last() == a);
        assert(spec_concat(seq![a]) == spec_concat(Seq::<Seq<u8>>::empty()) + a);
        assert(Seq::<u8>::empty() + a =~= a);
        assert(a + spec_concat(rest) =~= a);
    } else {
        lemma_concat_cons(a, rest.drop_last());
        assert((seq![a] + rest).drop_last() =~= seq![a] + rest.drop_last());
        assert((seq![a] + rest).last() == rest.last());
        assert((a + spec_concat(rest.drop_last())) + rest.last() =~= a + (spec_concat(
            rest.drop_last(),
        ) + rest.last()));
    }
}

/// No byte is duplicated or dropped: the lines the reader produces
/// concatenate back to exactly the input stream.
pub proof fn lemma_lines_rejoin(s: Seq<u8>)
    ensures
        spec_concat(spec_lines(s)) == s,
    decreases s.len(),
{
    if s.len() == 0 {
        assert(spec_lines(s) =~= Seq::<Seq<u8>>::empty());
        assert(spec_concat(spec_lines(s)) =~= s);
    } else {
        crate::lines::lemma_first_line_len_bounds(s);
        let k = crate::lines::first_line_len(s);
        lemma_lines_rejoin(s.skip(k));
        lemma_concat_cons(s.take(k), spec_lines(s.skip(k)));
        assert(s.take(k) + s.skip(k) =~= s);
    }
}

proof fn lemma_sum_assigned_zero<P: Parser>(
    p: P,
    lines: Seq<Seq<u8>>,
    sched: Seq<usize>,
    workers: int,
    wmax: int,
    n: int,
)
    requires
        n <= 0,
    ensures
        sum_assigned(p, lines, sched, workers, wmax, n) == 0,
    decreases wmax,
{
    if wmax > 0 {
        lemma_sum_assigned_zero(p, lines, sched, workers, wmax - 1, n);
    }
}

/// Every line is dequeued by exactly one of the `workers` workers.
pub proof fn lemma_worker_of_bound(sched: Seq<usize>, workers: int, i: int)
    requires
        workers >= 1,
    ensures
        0 <= worker_of(sched, workers, i) < workers,
{
    if sched.len() > 0 {
        lemma_mod_bound(sched[i % sched.len() as int] as int, workers);
    }
}

proof fn lemma_spec_emitted_le<P: Parser>(p: P, lines: Seq<Seq<u8>>)
    ensures
        spec_emitted(p, lines) <= lines.len(),
    decreases lines.len(),
{
    if lines.len() > 0 {
        lemma_spec_emitted_le(p, lines.drop_last());
    }
}

proof fn lemma_sum_assigned_mono<P: Parser>(
    p: P,
    lines: Seq<Seq<u8>>,
    sched: Seq<usize>,
    workers: int,
    w1: int,
    w2: int,
    n: int,
)
    requires
        w1 <= w2,
    ensures
        sum_assigned(p, lines, sched, workers, w1, n) <= sum_assigned(
            p,
            lines,
            sched,
            workers,
            w2,
            n,
        ),
    decreases w2,
{
    if w1 < w2 && w2 > 0 {
        lemma_sum_assigned_mono(p, lines, sched, workers, w1, w2 - 1, n);
    }
}

/// Order preservation at concurrency one: with a single worker the
/// pipeline's output is exactly the in-order single-threaded output,
/// whatever the schedule says.
pub proof fn lemma_order_preservation_single<P: Parser>(
    p: P,
    lines: Seq<Seq<u8>>,
    sched: Seq<usize>,
)
    ensures
        sim_output(p, lines, sched, 1) == spec_output(p, lines),
{
    lemma_output_assigned_single(p, lines, sched, lines.len() as int);
    assert(lines.take(lines.len() as int) =~= lines);
    assert(sim_output(p, lines, sched, 1) == outputs_upto(p, lines, sched, 1, 0)
        + output_assigned(p, lines, sched, 1, 0, lines.len() as int));
    assert(Seq::<u8>::empty() + output_assigned(p, lines, sched, 1, 0, lines.len() as int)
        =~= output_assigned(p, lines, sched, 1, 0, lines.len() as int));
}

proof fn lemma_output_assigned_single<P: Parser>(
    p: P,
    lines: Seq<Seq<u8>>,
    sched: Seq<usize>,
    n: int,
)
    requires
        0 <= n <= lines.len(),
    ensures
        output_assigned(p, lines, sched, 1, 0, n) == spec_output(p, lines.take(n)),
    decreases n,
{
    if n == 0 {
        assert(lines.take(0) =~= Seq::<Seq<u8>>::empty());
    } else {
        lemma_output_assigned_single(p, lines, sched, n - 1);
        lemma_worker_of_bound(sched, 1, n - 1);
        assert(worker_of(sched, 1, n - 1) == 0);
        assert(lines.take(n).drop_last() =~= lines.take(n - 1));
        assert(lines.take(n).last() == lines[n - 1]);
        assert(output_assigned(p, lines, sched, 1, 0, n) == spec_output(p, lines.take(n)));
    }
}

/// One worker's private accumulation state: the growing blob, the records
/// in it, and the worker's emitted-record count.
pub struct WorkerState {
    pub blob: Vec<u8>,
    pub lines_in_blob: usize,
    pub local_count: usize,
}

impl WorkerState {
    /// Between steps a blob is strictly below both flush thresholds.
    pub open spec fn inv(&self) -> bool {
        self.blob@.len() < BYTES_BLOB_TARGET && self.lines_in_blob < LINES_BLOB_MAX
    }

    pub fn new() -> (st: Self)
        ensures
            st.inv(),
            st.blob@ == Seq::<u8>::empty(),
            st.lines_in_blob == 0,
            st.local_count == 0,
    {
        WorkerState { blob: Vec::new(), lines_in_blob: 0, local_count: 0 }
    }
}

/// One worker step: decode a raw line, drop it silently if it is not valid
/// text, normalize its ending, apply the transformation, append the
/// terminator after a successful call, and flush the blob exactly when it
/// has reached the byte target or the record maximum.
pub fn worker_step<P: Parser>(p: &P, st: &mut WorkerState, line_bytes: &Vec<u8>) -> (flush: Option<
    Vec<u8>,
>)
    requires
        p.wf(),
        old(st).inv(),
        old(st).local_count < usize::MAX,
    ensures
        final(st).inv(),
        final(st).local_count == old(st).local_count + (if line_emits(*p, line_bytes@) {
            1int
        } else {
            0int
        }),
        ({
            let blob1 = old(st).blob@ + line_output(*p, line_bytes@);
            let lines1 = old(st).lines_in_blob + (if line_emits(*p, line_bytes@) {
                1int
            } else {
                0int
            });
            if blob1.len() >= BYTES_BLOB_TARGET || lines1 >= LINES_BLOB_MAX {
                &&& flush matches Some(b) && b@ == blob1
                &&& final(st).blob@ == Seq::<u8>::empty()
                &&& final(st).lines_in_blob == 0
            } else {
                &&& flush is None
                &&& final(st).blob@ == blob1
                &&& final(st).lines_in_blob == lines1
            }
        }),
{
    match decode_line(line_bytes.as_slice()) {
        Some(s) => {
            let norm = normalize_line(s);
            if p.process_line_to_buf(norm, &mut st.blob) {
                st.blob.push(10u8);
                st.local_count = st.local_count + 1;
                st.lines_in_blob = st.lines_in_blob + 1;
            }
        },
        None => {},
    }
    if st.blob.len() >= BYTES_BLOB_TARGET || st.lines_in_blob >= LINES_BLOB_MAX {
        let mut b: Vec<u8> = Vec::new();
        core::mem::swap(&mut b, &mut st.blob);
        st.lines_in_blob = 0;
        Some(b)
    } else {
        None
    }
}

/// The aggregate result of one run: total records emitted, and the blobs in
/// the order the writer receives them.
pub struct RunResult {
    pub emitted: usize,
    pub blobs: Vec<Vec<u8>>,
}

/// Run the pipeline over raw lines with `workers` workers under the given
/// dequeue schedule.
///
/// Count conservation: `emitted` equals the single-threaded count whatever
/// `workers` and `schedule` are. Order: the blobs concatenate to the
/// per-worker-ordered merge, and with exactly one worker to the in-order
/// single-threaded output.
pub fn run_lines<P: Parser>(
    p: &P,
    lines: &Vec<Vec<u8>>,
    workers: usize,
    schedule: &Vec<usize>,
) -> (r: RunResult)
    requires
        p.wf(),
        workers >= 1,
    ensures
        r.emitted == spec_emitted(*p, lines.deep_view()),
        spec_concat(r.blobs.deep_view()) == sim_output(
            *p,
            lines.deep_view(),
            schedule@,
            workers as int,
        ),
        workers == 1 ==> spec_concat(r.blobs.deep_view()) == spec_output(*p, lines.deep_view()),
{
    let ghost linesv = lines.deep_view();
    let ghost schedv = schedule@;
    let ghost wn = workers as int;
    let ghost nn = linesv.len() as int;
    proof {
        assert(linesv.len() == lines@.len());
    }
    let mut blobs: Vec<Vec<u8>> = Vec::new();
    let mut total: usize = 0;
    let mut w: usize = 0;
    while w < workers
        invariant
            p.wf(),
            workers >= 1,
            linesv == lines.deep_view(),
            schedv == schedule@,
            wn == workers as int,
            nn == linesv.len() as int,
            linesv.len() == lines@.len(),
            0 <= w <= workers,
            total == sum_assigned(*p, linesv, schedv, wn, w as int, nn),
            spec_concat(blobs.deep_view()) == outputs_upto(*p, linesv, schedv, wn, w as int),
        decreases workers - w,
    {
        let mut st = WorkerState::new();
        let mut i: usize = 0;
        while i < lines.len()
            invariant
                p.wf(),
                workers >= 1,
                linesv == lines.deep_view(),
                schedv == schedule@,
                wn == workers as int,
                nn == linesv.len() as int,
                linesv.len() == lines@.len(),
                0 <= w < workers,
                0 <= i <= lines@.len(),
                st.inv(),
                st.local_count == count_assigned(*p, linesv, schedv, wn, w as int, i as int),
                st.local_count <= i,
                spec_concat(blobs.deep_view()) + st.blob@ == outputs_upto(
                    *p,
                    linesv,
                    schedv,
                    wn,
                    w as int,
                ) + output_assigned(*p, linesv, schedv, wn, w as int, i as int),
                total == sum_assigned(*p, linesv, schedv, wn, w as int, nn),
            decreases lines@.len() - i,
        {
            let wi: usize = if schedule.len() == 0 {
                0
            } else {
                schedule[i % schedule.len()] % workers
            };
            proof {
                assert(wi as int == worker_of(schedv, wn, i as int));
                assert(linesv[i as int] =~= lines@[i as int]@);
            }
            let ghost out_i = output_assigned(*p, linesv, schedv, wn, w as int, i as int);
            let ghost upto_w = outputs_upto(*p, linesv, schedv, wn, w as int);
            let ghost lo = line_output(*p, linesv[i as int]);
            if wi == w {
                let ghost oldblob = st.blob@;
                let ghost oldconcat = spec_concat(blobs.deep_view());
                let flush = worker_step(p, &mut st, &lines[i]);
                match flush {
                    Some(b) => {
                        let ghost oldbd = blobs.deep_view();
                        blobs.push(b);
                        proof {
                            assert(blobs.deep_view().drop_last() =~~= oldbd);
                            assert(blobs.deep_view().last() =~= b@);
                            assert(spec_concat(blobs.deep_view()) == oldconcat + b@);
                            assert(spec_concat(blobs.deep_view()) + st.blob@ =~= (oldconcat
                                + oldblob) + lo);
                        }
                    },
                    None => {
                        proof {
                            assert(spec_concat(blobs.deep_view()) + st.blob@ =~= (oldconcat
                                + oldblob) + lo);
                        }
                    },
                }
                proof {
                    assert(output_assigned(*p, linesv, schedv, wn, w as int, i as int + 1) == out_i
                        + lo);
                    assert(spec_concat(blobs.deep_view()) + st.blob@ =~= upto_w + (out_i + lo));
                }
            } else {
                proof {
                    assert(output_assigned(*p, linesv, schedv, wn, w as int, i as int + 1) == out_i
                        + Seq::<u8>::empty());
                    assert(out_i + Seq::<u8>::empty() =~= out_i);
                }
            }
            i += 1;
        }
        proof {
            assert(output_assigned(*p, linesv, schedv, wn, w as int, i as int) == output_assigned(
                *p,
                linesv,
                schedv,
                wn,
                w as int,
                nn,
            ));
            assert(outputs_upto(*p, linesv, schedv, wn, w as int + 1) == outputs_upto(
                *p,
                linesv,
                schedv,
                wn,
                w as int,
            ) + output_assigned(*p, linesv, schedv, wn, w as int, nn));
        }
        if st.blob.len() > 0 {
            let ghost oldbd = blobs.deep_view();
            let ghost oldconcat = spec_concat(blobs.deep_view());
            let ghost lastblob = st.blob@;
            blobs.push(st.blob);
            proof {
                assert(blobs.deep_view().drop_last() =~~= oldbd);
                assert(blobs.deep_view().last() =~= lastblob);
                assert(spec_concat(blobs.deep_view()) == oldconcat + lastblob);
                assert(spec_concat(blobs.deep_view()) =~= outputs_upto(
                    *p,
                    linesv,
                    schedv,
                    wn,
                    w as int + 1,
                ));
            }
        } else {
            proof {
                assert(st.blob@ =~= Seq::<u8>::empty());
                assert(spec_concat(blobs.deep_view()) + st.blob@ =~= spec_concat(
                    blobs.deep_view(),
                ));
                assert(spec_concat(blobs.deep_view()) =~= outputs_upto(
                    *p,
                    linesv,
                    schedv,
                    wn,
                    w as int + 1,
                ));
            }
        }
        proof {
            lemma_sum_assigned_mono(*p, linesv, schedv, wn, w as int + 1, wn, nn);
            lemma_count_conservation(*p, linesv, schedv, wn, nn);
            lemma_spec_emitted_le(*p, linesv.take(nn));
            assert(linesv.take(nn) =~= linesv);
            assert(total + st.local_count == sum_assigned(
                *p,
                linesv,
                schedv,
                wn,
                w as int + 1,
                nn,
            ));
            assert(total + st.local_count <= linesv.len());
        }
        total = total + st.local_count;
        w += 1;
    }
    proof {
        lemma_count_conservation(*p, linesv, schedv, wn, nn);
        assert(linesv.take(nn) =~= linesv);
        if workers == 1 {
            lemma_order_preservation_single(*p, linesv, schedv);
        }
    }
    RunResult { emitted: total, blobs }
}

/// The writer: drain the blob queue and append each blob verbatim, in
/// receipt order.
pub fn writer_concat(blobs: &Vec<Vec<u8>>) -> (out: Vec<u8>)
    ensures
        out@ == spec_concat(blobs.deep_view()),
{
    let mut out: Vec<u8> = Vec::new();
    let mut i: usize = 0;
    while i < blobs.len()
        invariant
            0 <= i <= blobs@.len(),
            out@ == spec_concat(blobs.deep_view().take(i as int)),
        decreases blobs@.len() - i,
    {
        out.extend_from_slice(blobs[i].as_slice());
        i += 1;
        proof {
            assert(blobs.deep_view().take(i as int).drop_last() =~~= blobs.deep_view().take(
                i as int - 1,
            ));
            assert(blobs.deep_view().take(i as int).last() =~= blobs@[i as int - 1]@);
            assert(out@ == spec_concat(blobs.deep_view().take(i as int)));
        }
    }
    proof {
        assert(blobs.deep_view().take(i as int) =~= blobs.deep_view());
    }
    out
}

/// Split a byte stream into lines and run the pipeline over them.
pub fn run_bytes<P: Parser>(p: &P, data: &Vec<u8>, workers: usize, schedule: &Vec<usize>) -> (r:
    RunResult)
    requires
        p.wf(),
        workers >= 1,
    ensures
        r.emitted == spec_emitted(*p, spec_lines(data@)),
        spec_concat(r.blobs.deep_view()) == sim_output(
            *p,
            spec_lines(data@),
            schedule@,
            workers as int,
        ),
        workers == 1 ==> spec_concat(r.blobs.deep_view()) == spec_output(*p, spec_lines(data@)),
{
    let lines = split_lines(data);
    run_lines(p, &lines, workers, schedule)
}

} // verus!
