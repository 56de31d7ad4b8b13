//! The flat history file: one solve per line, its duration written as
//! decimal seconds with three fractional digits. The reader accepts any
//! line of the form `digits` or `digits.digits` (an optional trailing
//! carriage return is dropped), reads at most the first three fractional
//! digits, and silently discards every other line.

use vstd::prelude::*;
use crate::stats::{opt_seq, raw_of, Time, Times};

verus! {

pub open spec fn is_digit(b: u8) -> bool {
    48 <= b <= 57
}

pub open spec fn all_digits(s: Seq<u8>) -> bool {
    forall|i: int| 0 <= i < s.len() ==> is_digit(#[trigger] s[i])
}

/// Value of a string of decimal digit bytes, most significant first.
pub open spec fn digits_val(s: Seq<u8>) -> int
    recommends
        all_digits(s),
    decreases s.len(),
{
    if s.len() == 0 {
        0
    } else {
        digits_val(s.drop_last()) * 10 + s.last() - 48
    }
}

/// Milliseconds contributed by the fractional digits: only the first
/// three count; missing places count as zero.
pub open spec fn frac3_val(s: Seq<u8>) -> int
    recommends
        all_digits(s),
{
    if s.len() >= 3 {
        digits_val(s.subrange(0, 3))
    } else if s.len() == 2 {
        digits_val(s) * 10
    } else if s.len() == 1 {
        digits_val(s) * 100
    } else {
        0
    }
}

/// Index of the first occurrence of `b` in `s`, or `s.len()` if absent.
pub open spec fn find_byte(s: Seq<u8>, b: u8) -> int
    decreases s.len(),
{
    if s.len() == 0 {
        0
    } else if s[0] == b {
        0
    } else {
        1 + find_byte(s.subrange(1, s.len() as int), b)
    }
}

proof fn lemma_find_byte(s: Seq<u8>, b: u8)
    ensures
        0 <= find_byte(s, b) <= s.len(),
        find_byte(s, b) < s.len() ==> s[find_byte(s, b)] == b,
        forall|i: int| 0 <= i < find_byte(s, b) ==> s[i] != b,
    decreases s.len(),
{
    if s.len() > 0 && s[0] != b {
        let t = s.subrange(1, s.len() as int);
        lemma_find_byte(t, b);
        if find_byte(t, b) < t.len() {
            assert(s[find_byte(s, b)] == t[find_byte(t, b)]);
        }
        assert forall|i: int| 0 <= i < find_byte(s, b) implies s[i] != b by {
            if i >= 1 {
                assert(s[i] == t[i - 1]);
            }
        }
    }
}

/// The duration a line denotes, if any: `digits` (whole seconds) or
/// `digits.digits` (at most the first three fractional digits are read),
/// with an optional trailing carriage return, provided the millisecond
/// value fits a `u64`.
pub open spec fn line_value(line: Seq<u8>) -> Option<u64> {
    let l = if line.len() > 0 && line.last() == 13 {
        line.drop_last()
    } else {
        line
    };
    let d = find_byte(l, 46);
    if d == l.len() {
        if l.len() > 0 && all_digits(l) && digits_val(l) * 1000 <= u64::MAX {
            Some((digits_val(l) * 1000) as u64)
        } else {
            None
        }
    } else {
        let ip = l.subrange(0, d);
        let fp = l.subrange(d + 1, l.len() as int);
        if ip.len() > 0 && all_digits(ip) && all_digits(fp) && digits_val(ip) * 1000 + frac3_val(
            fp,
        ) <= u64::MAX {
            Some((digits_val(ip) * 1000 + frac3_val(fp)) as u64)
        } else {
            None
        }
    }
}

/// The durations a whole file denotes: split at every newline, parse
/// each line, keep the values of the lines that parse, in file order.
pub open spec fn history_values(data: Seq<u8>) -> Seq<u64>
    decreases data.len(),
{
    if data.len() == 0 {
        Seq::empty()
    } else {
        let nl = find_byte(data, 10);
        let cut = if 0 <= nl < data.len() {
            nl + 1
        } else {
            data.len() as int
        };
        let line = data.subrange(0, if 0 <= nl <= data.len() {
            nl
        } else {
            0
        });
        opt_seq(line_value(line)) + history_values(data.subrange(cut, data.len() as int))
    }
}

/// The decimal digit bytes of `n`, most significant first.
pub open spec fn dec_bytes(n: nat) -> Seq<u8>
    decreases n,
{
    if n < 10 {
        seq![(48 + n) as u8]
    } else {
        dec_bytes(n / 10).push((48 + n % 10) as u8)
    }
}

/// The line written for a duration of `ms` milliseconds: whole seconds,
/// a dot, and exactly three fractional digits. No newline.
pub open spec fn line_bytes(ms: nat) -> Seq<u8> {
    dec_bytes(ms / 1000) + seq![
        46u8,
        (48 + (ms / 100) % 10) as u8,
        (48 + (ms / 10) % 10) as u8,
        (48 + ms % 10) as u8,
    ]
}

/// The whole file written for a history: one line per record, in
/// storage order, each terminated by a newline.
pub open spec fn save_bytes(raw: Seq<u64>) -> Seq<u8>
    decreases raw.len(),
{
    if raw.len() == 0 {
        Seq::empty()
    } else {
        line_bytes(raw[0] as nat) + seq![10u8] + save_bytes(raw.drop_first())
    }
}

proof fn lemma_digits_val_nonneg(s: Seq<u8>)
    requires
        all_digits(s),
    ensures
        0 <= digits_val(s),
    decreases s.len(),
{
    if s.len() > 0 {
        assert(is_digit(s[s.len() - 1]));
        lemma_digits_val_nonneg(s.drop_last());
    }
}

/// Reading more digits never shrinks the value.
proof fn lemma_digits_val_extend(s: Seq<u8>, k: int)
    requires
        all_digits(s),
        0 <= k <= s.len(),
    ensures
        digits_val(s.subrange(0, k)) <= digits_val(s),
    decreases s.len() - k,
{
    if k == s.len() {
        assert(s.subrange(0, k) =~= s);
    } else {
        let t = s.subrange(0, s.len() - 1);
        assert(t =~= s.drop_last());
        assert(forall|i: int| 0 <= i < t.len() ==> t[i] == s[i]);
        lemma_digits_val_extend(t, k);
        assert(t.subrange(0, k) =~= s.subrange(0, k));
        lemma_digits_val_nonneg(t);
        assert(is_digit(s[s.len() - 1]));
        assert(digits_val(s) == digits_val(t) * 10 + s.last() - 48);
    }
}

proof fn lemma_digits_val3(a: u8, b: u8, c: u8)
    ensures
        digits_val(seq![a]) == a - 48,
        digits_val(seq![a, b]) == (a - 48) * 10 + b - 48,
        digits_val(seq![a, b, c]) == (a - 48) * 100 + (b - 48) * 10 + c - 48,
{
    assert(seq![a].drop_last() =~= Seq::<u8>::empty());
    assert(seq![a, b].drop_last() =~= seq![a]);
    assert(seq![a, b, c].drop_last() =~= seq![a, b]);
    assert(digits_val(Seq::<u8>::empty()) == 0);
    assert(digits_val(seq![a]) == digits_val(Seq::<u8>::empty()) * 10 + seq![a].last() - 48);
    assert(digits_val(seq![a, b]) == digits_val(seq![a]) * 10 + seq![a, b].last() - 48);
    assert(digits_val(seq![a, b, c]) == digits_val(seq![a, b]) * 10 + seq![a, b, c].last() - 48);
}

/// Parse the digit run `s[start..end]`: its value when every byte is a
/// digit and the value fits, `None` otherwise.
fn digits_run_val(s: &[u8], start: usize, end: usize) -> (r: Option<u64>)
    requires
        start <= end <= s@.len(),
    ensures
        match r {
            Some(v) => all_digits(s@.subrange(start as int, end as int)) && v == digits_val(
                s@.subrange(start as int, end as int),
            ),
            None => !all_digits(s@.subrange(start as int, end as int)) || digits_val(
                s@.subrange(start as int, end as int),
            ) > u64::MAX,
        },
{
    let ghost run = s@.subrange(start as int, end as int);
    let mut acc: u64 = 0;
    let mut i = start;
    while i < end
        invariant
            start <= i <= end <= s@.len(),
            run == s@.subrange(start as int, end as int),
            all_digits(s@.subrange(start as int, i as int)),
            acc == digits_val(s@.subrange(start as int, i as int)),
        decreases end - i,
    {
        let c = s[i];
        let ghost pre = s@.subrange(start as int, i as int);
        let ghost pre1 = s@.subrange(start as int, i + 1);
        proof {
            assert(pre1 =~= pre.push(s@[i as int]));
            assert(run[i - start] == s@[i as int]);
        }
        if c < 48 || c > 57 {
            return None;
        }
        proof {
            assert(pre1.drop_last() =~= pre);
            assert(pre1.last() == c);
            assert(digits_val(pre1) == digits_val(pre) * 10 + c - 48);
        }
        let step = match acc.checked_mul(10) {
            Some(m) => m.checked_add((c - 48) as u64),
            None => None,
        };
        match step {
            Some(v) => {
                acc = v;
            },
            None => {
                proof {
                    assert(digits_val(pre1) > u64::MAX);
                    if all_digits(run) {
                        assert(forall|j: int|
                            0 <= j < run.len() ==> run[j] == s@[start + j]);
                        lemma_digits_val_extend(run, i + 1 - start);
                        assert(run.subrange(0, i + 1 - start) =~= pre1);
                    }
                }
                return None;
            },
        }
        i += 1;
    }
    proof {
        assert(s@.subrange(start as int, i as int) =~= run);
    }
    Some(acc)
}

/// Check the digit run `s[start..end]` and give the millisecond value of
/// its first three digits (missing places count as zero).
fn frac3_run(s: &[u8], start: usize, end: usize) -> (r: Option<u64>)
    requires
        start <= end <= s@.len(),
    ensures
        match r {
            Some(v) => all_digits(s@.subrange(start as int, end as int)) && v == frac3_val(
                s@.subrange(start as int, end as int),
            ) && v < 1000,
            None => !all_digits(s@.subrange(start as int, end as int)),
        },
{
    let ghost run = s@.subrange(start as int, end as int);
    let mut i = start;
    while i < end
        invariant
            start <= i <= end <= s@.len(),
            run == s@.subrange(start as int, end as int),
            forall|j: int| 0 <= j < i - start ==> is_digit(#[trigger] run[j]),
        decreases end - i,
    {
        let c = s[i];
        proof {
            assert(run[i - start] == s@[i as int]);
        }
        if c < 48 || c > 57 {
            return None;
        }
        i += 1;
    }
    proof {
        assert(all_digits(run));
        assert(forall|j: int| 0 <= j < run.len() ==> run[j] == s@[start + j]);
    }
    let len = end - start;
    if len >= 3 {
        proof {
            assert(is_digit(run[0]) && run[0] == s@[start as int]);
            assert(is_digit(run[1]) && run[1] == s@[start + 1]);
            assert(is_digit(run[2]) && run[2] == s@[start + 2]);
        }
        let v = (s[start] - 48) as u64 * 100 + (s[start + 1] - 48) as u64 * 10 + (s[start + 2]
            - 48) as u64;
        proof {
            lemma_digits_val3(s@[start as int], s@[start + 1], s@[start + 2]);
            assert(run.subrange(0, 3) =~= seq![s@[start as int], s@[start + 1], s@[start + 2]]);
            assert(run[0] == s@[start as int] && run[1] == s@[start + 1] && run[2] == s@[start
                + 2]);
        }
        Some(v)
    } else if len == 2 {
        proof {
            assert(is_digit(run[0]) && run[0] == s@[start as int]);
            assert(is_digit(run[1]) && run[1] == s@[start + 1]);
        }
        let v = (s[start] - 48) as u64 * 100 + (s[start + 1] - 48) as u64 * 10;
        proof {
            lemma_digits_val3(s@[start as int], s@[start + 1], 48);
            assert(run =~= seq![s@[start as int], s@[start + 1]]);
        }
        Some(v)
    } else if len == 1 {
        proof {
            assert(is_digit(run[0]) && run[0] == s@[start as int]);
        }
        let v = (s[start] - 48) as u64 * 100;
        proof {
            lemma_digits_val3(s@[start as int], 48, 48);
            assert(run =~= seq![s@[start as int]]);
        }
        Some(v)
    } else {
        proof {
            assert(run.len() == 0);
        }
        Some(0)
    }
}

/// Parse one line of the history file.
pub fn parse_line(line: &[u8]) -> (r: Option<u64>)
    ensures
        r == line_value(line@),
{
    let ghost whole = line@;
    let n0 = line.len();
    let l: &[u8] = if n0 > 0 && line[n0 - 1] == 13 {
        &line[0..n0 - 1]
    } else {
        line
    };
    proof {
        if whole.len() > 0 && whole.last() == 13 {
            assert(l@ =~= whole.drop_last());
        }
    }
    let n = l.len();
    let mut d: usize = 0;
    while d < n && l[d] != 46
        invariant
            d <= n,
            n == l@.len(),
            forall|i: int| 0 <= i < d ==> l@[i] != 46,
        decreases n - d,
    {
        d += 1;
    }
    proof {
        lemma_find_byte(l@, 46);
        if d < n {
            assert(l@[d as int] == 46);
        }
        assert(d == find_byte(l@, 46));
    }
    if d == n {
        if n == 0 {
            return None;
        }
        proof {
            assert(l@.subrange(0, n as int) =~= l@);
        }
        match digits_run_val(l, 0, n) {
            Some(secs) => {
                proof {
                    lemma_digits_val_nonneg(l@);
                }
                match secs.checked_mul(1000) {
                    Some(v) => Some(v),
                    None => None,
                }
            },
            None => {
                proof {
                    if all_digits(l@) {
                        lemma_digits_val_nonneg(l@);
                    }
                }
                None
            },
        }
    } else {
        if d == 0 {
            proof {
                assert(l@.subrange(0, 0).len() == 0);
            }
            return None;
        }
        let ghost ip = l@.subrange(0, d as int);
        let ghost fp = l@.subrange(d + 1, n as int);
        let secs_r = digits_run_val(l, 0, d);
        let frac_r = frac3_run(l, d + 1, n);
        proof {
            if all_digits(ip) {
                lemma_digits_val_nonneg(ip);
            }
            if all_digits(fp) {
                lemma_digits_val_nonneg(fp);
                if fp.len() >= 3 {
                    assert(all_digits(fp.subrange(0, 3)));
                    lemma_digits_val_nonneg(fp.subrange(0, 3));
                }
            }
        }
        match (secs_r, frac_r) {
            (Some(secs), Some(frac)) => {
                match secs.checked_mul(1000) {
                    Some(m) => match m.checked_add(frac) {
                        Some(v) => Some(v),
                        None => None,
                    },
                    None => None,
                }
            },
            _ => None,
        }
    }
}

/// Parse a whole history file: the values of the lines that parse, in
/// file order.
pub fn parse_times(data: &[u8]) -> (r: Vec<u64>)
    ensures
        r@ == history_values(data@),
{
    let mut out: Vec<u64> = Vec::new();
    let mut pos: usize = 0;
    proof {
        assert(data@.subrange(0, data@.len() as int) =~= data@);
        assert(out@ + history_values(data@) =~= history_values(data@));
    }
    while pos < data.len()
        invariant
            pos <= data@.len(),
            history_values(data@) == out@ + history_values(
                data@.subrange(pos as int, data@.len() as int),
            ),
        decreases data@.len() - pos,
    {
        let ghost rem = data@.subrange(pos as int, data@.len() as int);
        let mut j = pos;
        while j < data.len() && data[j] != 10
            invariant
                pos <= j <= data@.len(),
                forall|i: int| pos <= i < j ==> data@[i] != 10,
            decreases data@.len() - j,
        {
            j += 1;
        }
        proof {
            lemma_find_byte(rem, 10);
            assert(forall|i: int| 0 <= i < rem.len() ==> rem[i] == data@[pos + i]);
            if j < data@.len() {
                assert(rem[j - pos] == 10);
            }
            assert(find_byte(rem, 10) == j - pos);
        }
        let line = &data[pos..j];
        let v = parse_line(line);
        proof {
            assert(line@ =~= rem.subrange(0, j - pos));
        }
        match v {
            Some(t) => out.push(t),
            None => (),
        }
        let newpos = if j < data.len() {
            j + 1
        } else {
            j
        };
        proof {
            let nl = find_byte(rem, 10);
            let cut = if 0 <= nl < rem.len() {
                nl + 1
            } else {
                rem.len() as int
            };
            assert(rem.subrange(cut, rem.len() as int) =~= data@.subrange(
                newpos as int,
                data@.len() as int,
            ));
            assert(history_values(rem) == opt_seq(line_value(line@)) + history_values(
                data@.subrange(newpos as int, data@.len() as int),
            ));
            match v {
                Some(t) => {
                    assert(out@ =~= out@.subrange(0, out@.len() - 1) + opt_seq(v));
                },
                None => {
                    assert(out@ + opt_seq(v) =~= out@);
                },
            }
            assert(history_values(data@) == out@ + history_values(
                data@.subrange(newpos as int, data@.len() as int),
            ));
        }
        pos = newpos;
    }
    proof {
        assert(data@.subrange(pos as int, data@.len() as int).len() == 0);
        assert(out@ + history_values(data@.subrange(pos as int, data@.len() as int)) =~= out@);
    }
    out
}

/// Append the decimal digit bytes of `n`.
fn push_u64_bytes(out: &mut Vec<u8>, n: u64)
    ensures
        final(out)@ == old(out)@ + dec_bytes(n as nat),
    decreases n,
{
    if n >= 10 {
        push_u64_bytes(out, n / 10);
        out.push(48 + (n % 10) as u8);
        proof {
            assert(out@ =~= old(out)@ + dec_bytes(n as nat));
        }
    } else {
        out.push(48 + n as u8);
        proof {
            assert(out@ =~= old(out)@ + dec_bytes(n as nat));
        }
    }
}

/// Append one record's line, newline included.
fn push_line(out: &mut Vec<u8>, ms: u64)
    ensures
        final(out)@ == old(out)@ + line_bytes(ms as nat) + seq![10u8],
{
    push_u64_bytes(out, ms / 1000);
    out.push(46);
    out.push(48 + ((ms / 100) % 10) as u8);
    out.push(48 + ((ms / 10) % 10) as u8);
    out.push(48 + (ms % 10) as u8);
    out.push(10);
    proof {
        assert(out@ =~= old(out)@ + line_bytes(ms as nat) + seq![10u8]);
    }
}

/// Writing one more record appends exactly its line.
proof fn lemma_save_snoc(s: Seq<u64>, x: u64)
    ensures
        save_bytes(s.push(x)) == save_bytes(s) + line_bytes(x as nat) + seq![10u8],
    decreases s.len(),
{
    if s.len() == 0 {
        assert(s.push(x)[0] == x);
        assert(s.push(x).drop_first() =~= Seq::<u64>::empty());
        assert(save_bytes(Seq::<u64>::empty()) =~= Seq::<u8>::empty());
        assert(save_bytes(s.push(x)) =~= save_bytes(s) + line_bytes(x as nat) + seq![10u8]);
    } else {
        lemma_save_snoc(s.drop_first(), x);
        assert(s.push(x).drop_first() =~= s.drop_first().push(x));
        assert(s.push(x)[0] == s[0]);
        assert(save_bytes(s.push(x)) =~= save_bytes(s) + line_bytes(x as nat) + seq![10u8]);
    }
}

/// The whole file for the stored history: one line per record, in
/// storage order.
pub fn history_file_bytes(times: &Vec<Time>) -> (r: Vec<u8>)
    ensures
        r@ == save_bytes(raw_of(times@)),
{
    let ghost raw = raw_of(times@);
    let mut out: Vec<u8> = Vec::new();
    let mut i: usize = 0;
    proof {
        assert(raw.subrange(0, 0).len() == 0);
        assert(out@ =~= save_bytes(raw.subrange(0, 0)));
    }
    while i < times.len()
        invariant
            i <= times@.len(),
            raw == raw_of(times@),
            out@ == save_bytes(raw.subrange(0, i as int)),
        decreases times@.len() - i,
    {
        let t = times[i].time;
        push_line(&mut out, t);
        proof {
            lemma_save_snoc(raw.subrange(0, i as int), raw[i as int]);
            assert(raw.subrange(0, i + 1) =~= raw.subrange(0, i as int).push(raw[i as int]));
        }
        i += 1;
    }
    proof {
        assert(raw.subrange(0, raw.len() as int) =~= raw);
    }
    out
}

proof fn lemma_dec_bytes_digits(n: nat)
    ensures
        all_digits(dec_bytes(n)),
        digits_val(dec_bytes(n)) == n,
        dec_bytes(n).len() >= 1,
    decreases n,
{
    if n < 10 {
        assert(dec_bytes(n) =~= seq![(48 + n) as u8]);
        assert(dec_bytes(n).drop_last() =~= Seq::<u8>::empty());
        assert(digits_val(Seq::<u8>::empty()) == 0);
    } else {
        lemma_dec_bytes_digits(n / 10);
        let d = dec_bytes(n / 10);
        let b = dec_bytes(n);
        assert(b == d.push((48 + n % 10) as u8));
        assert(b.drop_last() =~= d);
        assert(b.last() == (48 + n % 10) as u8);
        assert(digits_val(b) == digits_val(d) * 10 + b.last() - 48);
        assert(forall|i: int|
            0 <= i < b.len() ==> b[i] == if i < d.len() {
                d[i]
            } else {
                (48 + n % 10) as u8
            });
    }
}

/// The first occurrence is exactly where a witness with a clear prefix
/// puts it.
proof fn lemma_find_byte_at(s: Seq<u8>, b: u8, k: int)
    requires
        0 <= k < s.len(),
        s[k] == b,
        forall|i: int| 0 <= i < k ==> s[i] != b,
    ensures
        find_byte(s, b) == k,
{
    lemma_find_byte(s, b);
}

/// Writing a duration and reading the line back gives the duration.
pub proof fn lemma_line_roundtrip(ms: u64)
    ensures
        line_value(line_bytes(ms as nat)) == Some(ms),
{
    let lb = line_bytes(ms as nat);
    let db = dec_bytes((ms as nat) / 1000);
    lemma_dec_bytes_digits((ms as nat) / 1000);
    let k = db.len() as int;
    let a = (48 + ((ms as nat) / 100) % 10) as u8;
    let bb = (48 + ((ms as nat) / 10) % 10) as u8;
    let c = (48 + (ms as nat) % 10) as u8;
    assert(lb.len() == k + 4);
    assert(lb[k] == 46);
    assert(lb[k + 1] == a && lb[k + 2] == bb && lb[k + 3] == c);
    assert(forall|i: int| 0 <= i < k ==> lb[i] == db[i]);
    assert(lb.last() == c);
    assert(lb.last() != 13);
    lemma_find_byte_at(lb, 46, k);
    let ip = lb.subrange(0, k);
    let fp = lb.subrange(k + 1, lb.len() as int);
    assert(ip =~= db);
    assert(fp =~= seq![a, bb, c]);
    assert(all_digits(fp));
    assert(fp.subrange(0, 3) =~= fp);
    lemma_digits_val3(a, bb, c);
    assert(frac3_val(fp) == (((ms as nat) / 100) % 10) * 100 + (((ms as nat) / 10) % 10) * 10 + (
    ms as nat) % 10);
    assert((((ms / 100) % 10) * 100 + ((ms / 10) % 10) * 10 + ms % 10) == ms % 1000) by {
        assert(ms % 1000 == ((ms % 1000) / 100) * 100 + (ms % 1000) % 100);
        assert((ms % 1000) / 100 == (ms / 100) % 10) by (nonlinear_arith);
        assert((ms % 1000) % 100 == ms % 100) by (nonlinear_arith);
        assert(ms % 100 == ((ms % 100) / 10) * 10 + (ms % 100) % 10);
        assert((ms % 100) / 10 == (ms / 10) % 10) by (nonlinear_arith);
        assert((ms % 100) % 10 == ms % 10) by (nonlinear_arith);
    }
    assert(digits_val(ip) * 1000 + frac3_val(fp) == (ms / 1000) * 1000 + ms % 1000);
    assert((ms / 1000) * 1000 + ms % 1000 == ms);
}

/// Reading back a written file gives exactly the raw times written.
pub proof fn lemma_save_parse(raw: Seq<u64>)
    ensures
        history_values(save_bytes(raw)) == raw,
    decreases raw.len(),
{
    if raw.len() == 0 {
        assert(save_bytes(raw).len() == 0);
        assert(history_values(save_bytes(raw)) =~= raw);
    } else {
        let data = save_bytes(raw);
        let lb = line_bytes(raw[0] as nat);
        let rest = save_bytes(raw.drop_first());
        let k = lb.len() as int;
        lemma_dec_bytes_digits((raw[0] as nat) / 1000);
        assert(data == lb + seq![10u8] + rest);
        assert(data[k] == 10);
        assert(forall|i: int| 0 <= i < dec_bytes((raw[0] as nat) / 1000).len() ==> lb[i]
            == dec_bytes((raw[0] as nat) / 1000)[i]);
        assert(forall|i: int| 0 <= i < k ==> lb[i] != 10);
        assert(forall|i: int| 0 <= i < k ==> data[i] == lb[i]);
        lemma_find_byte_at(data, 10, k);
        assert(data.subrange(0, k) =~= lb);
        assert(data.subrange(k + 1, data.len() as int) =~= rest);
        lemma_line_roundtrip(raw[0]);
        lemma_save_parse(raw.drop_first());
        assert(history_values(data) == opt_seq(Some(raw[0])) + raw.drop_first());
        assert(opt_seq(Some(raw[0])) + raw.drop_first() =~= raw);
    }
}

/// The round trip: the file written for a history parses back to exactly
/// its stored raw times; a history rebuilt by replaying them through
/// `insert` carries the same aggregates and the same per-record averages,
/// provided the saved history was itself built by insertions alone (after a
/// deletion the aggregates keep pre-deletion values that no replay of the
/// survivors reproduces).
pub proof fn lemma_round_trip(h: Times, g: Times)
    requires
        h.fresh(),
        g.fresh(),
        g.raw() == history_values(save_bytes(h.raw())),
    ensures
        g.raw() == h.raw(),
        g.times@ == h.times@,
        g.pbsingle == h.pbsingle,
        g.pbao5 == h.pbao5,
        g.pbao12 == h.pbao12,
        g.ao100 == h.ao100,
        g.ao1k == h.ao1k,
        g.rollingavg == h.rollingavg,
        g.sum == h.sum,
{
    lemma_save_parse(h.raw());
    assert(g.raw() == h.raw());
    assert(g.times@.len() == g.raw().len());
    assert(h.times@.len() == h.raw().len());
    assert forall|i: int| 0 <= i < g.times@.len() implies g.times@[i] == h.times@[i] by {
        assert(g.times@[i].time == g.raw()[i]);
        assert(h.times@[i].time == h.raw()[i]);
    }
    assert(g.times@ =~= h.times@);
}

} // verus!
