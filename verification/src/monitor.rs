//! The progress monitor: consumes a subprocess's diagnostic stream in raw
//! chunks — the backend overwrites a single display line with carriage
//! returns, so line splitting would starve updates — extracts `NN%`
//! progress signals, and reconstructs the error tail when the process
//! fails.

use crate::text::is_ws_char;
use crate::text::sp_is_ws;
use vstd::prelude::*;

verus! {

pub open spec fn sp_is_digit(c: char) -> bool {
    '0' <= c && c <= '9'
}

fn is_digit_char(c: char) -> (r: bool)
    ensures
        r == sp_is_digit(c),
{
    '0' <= c && c <= '9'
}

/// The end of the run of digits starting at `i`.
pub open spec fn sp_digit_run_end(t: Seq<char>, i: nat) -> nat
    decreases t.len() - i,
{
    if i < t.len() && sp_is_digit(t[i as int]) {
        sp_digit_run_end(t, i + 1)
    } else {
        i
    }
}

/// The position of the last digit run at or after `i` that is immediately
/// followed by `%` — the last match of the percent pattern, which is the
/// one that settles the position when a chunk carries several
/// carriage-return-overwritten updates.
pub open spec fn sp_percent_pos(t: Seq<char>, i: nat) -> Option<nat>
    decreases t.len() - i,
{
    if i >= t.len() {
        None
    } else if sp_is_digit(t[i as int]) {
        let j = sp_digit_run_end(t, i);
        let rest = if i < j <= t.len() {
            sp_percent_pos(t, j)
        } else {
            None
        };
        if j < t.len() && t[j as int] == '%' {
            match rest {
                Some(p) => Some(p),
                None => Some(i),
            }
        } else {
            rest
        }
    } else {
        sp_percent_pos(t, i + 1)
    }
}

/// The numeric value of a digit string.
pub open spec fn sp_digits_value(d: Seq<char>) -> int
    decreases d.len(),
{
    if d.len() == 0 {
        0
    } else {
        sp_digits_value(d.drop_last()) * 10 + (d.last() as int - '0' as int)
    }
}

/// The progress a chunk reports: the value of the last `NN%` token, if
/// there is one and it fits the position counter.
pub open spec fn sp_percent_value(t: Seq<char>) -> Option<int> {
    match sp_percent_pos(t, 0) {
        Some(i) => {
            let v = sp_digits_value(t.subrange(i as int, sp_digit_run_end(t, i) as int));
            if v <= u64::MAX {
                Some(v)
            } else {
                None
            }
        },
        None => None,
    }
}

/// A position that bounds a digit run and stops at a non-digit is the digit
/// run's end.
proof fn lemma_digit_run_end_char(t: Seq<char>, i: nat, j: nat)
    requires
        i <= j <= t.len(),
        forall|k: int| i <= k < j ==> sp_is_digit(#[trigger] t[k]),
        j == t.len() || !sp_is_digit(t[j as int]),
    ensures
        sp_digit_run_end(t, i) == j,
    decreases t.len() - i,
{
    if i < t.len() && sp_is_digit(t[i as int]) {
        assert(i < j);
        lemma_digit_run_end_char(t, i + 1, j);
    }
}

/// A nonnegative-value invariant for digit strings.
proof fn lemma_digits_value_nonneg(d: Seq<char>)
    requires
        forall|k: int| 0 <= k < d.len() ==> sp_is_digit(#[trigger] d[k]),
    ensures
        sp_digits_value(d) >= 0,
    decreases d.len(),
{
    if d.len() > 0 {
        assert(forall|k: int|
            0 <= k < d.drop_last().len() ==> sp_is_digit(#[trigger] d.drop_last()[k]));
        lemma_digits_value_nonneg(d.drop_last());
    }
}

/// Extract the last percent token's value from a raw chunk, if any; a
/// token too large for the position counter reports nothing.
pub fn extract_percent(chunk: &str) -> (r: Option<u64>)
    ensures
        match r {
            Some(v) => sp_percent_value(chunk@) == Some(v as int),
            None => sp_percent_value(chunk@) is None,
        },
{
    let len = chunk.unicode_len();
    let mut i: usize = 0;
    let mut found = false;
    let mut best: u64 = 0;
    let mut best_over = false;
    let ghost mut best_pos: Option<nat> = None;
    while i < len
        invariant
            i <= len,
            len == chunk@.len(),
            sp_percent_pos(chunk@, 0) == (match sp_percent_pos(chunk@, i as nat) {
                Some(p) => Some(p),
                None => best_pos,
            }),
            found == (best_pos is Some),
            best_pos matches Some(p) ==> ({
                let v = sp_digits_value(
                    chunk@.subrange(p as int, sp_digit_run_end(chunk@, p) as int),
                );
                if best_over {
                    v > u64::MAX
                } else {
                    best == v
                }
            }),
        decreases len - i,
    {
        let c = chunk.get_char(i);
        if '0' <= c && c <= '9' {
            // scan the digit run, accumulating its value
            let mut j: usize = i;
            let mut acc: u64 = 0;
            let mut overflowed = false;
            let mut done = false;
            while !done
                invariant
                    i <= j <= len,
                    len == chunk@.len(),
                    forall|k: int| i <= k < j ==> sp_is_digit(#[trigger] chunk@[k]),
                    !overflowed ==> acc == sp_digits_value(chunk@.subrange(i as int, j as int)),
                    overflowed ==> sp_digits_value(chunk@.subrange(i as int, j as int)) > u64::MAX,
                    done ==> j == len || !sp_is_digit(chunk@[j as int]),
                decreases len - j + if done {
                    0int
                } else {
                    1int
                },
            {
                if j == len {
                    done = true;
                } else {
                    let c2 = chunk.get_char(j);
                    if is_digit_char(c2) {
                        let d: u64 = (c2 as u32 - 48) as u64;
                        let ghost prefix = chunk@.subrange(i as int, j as int);
                        let ghost extended = chunk@.subrange(i as int, j + 1);
                        proof {
                            assert(extended.drop_last() =~= prefix);
                            assert(extended.last() == chunk@[j as int]);
                            assert(forall|k: int|
                                0 <= k < prefix.len() ==> sp_is_digit(#[trigger] prefix[k]));
                            lemma_digits_value_nonneg(prefix);
                            assert(sp_digits_value(extended) == sp_digits_value(prefix) * 10 + d);
                        }
                        if overflowed {
                            proof {
                                assert(sp_digits_value(prefix) * 10 + d > u64::MAX)
                                    by (nonlinear_arith)
                                    requires
                                        sp_digits_value(prefix) > u64::MAX,
                                        d >= 0,
                                ;
                            }
                        } else if acc > (u64::MAX - d) / 10 {
                            overflowed = true;
                            proof {
                                assert(acc * 10 + d > u64::MAX) by (nonlinear_arith)
                                    requires
                                        acc > (u64::MAX - d) / 10,
                                        0 <= d <= 9,
                                ;
                            }
                        } else {
                            proof {
                                assert(acc * 10 + d <= u64::MAX) by (nonlinear_arith)
                                    requires
                                        acc <= (u64::MAX - d) / 10,
                                        0 <= d <= 9,
                                ;
                            }
                            acc = acc * 10 + d;
                        }
                        j += 1;
                    } else {
                        done = true;
                    }
                }
            }
            proof {
                lemma_digit_run_end_char(chunk@, i as nat, j as nat);
                assert(i < j);
            }
            let mut matched = false;
            if j < len {
                let boundary = chunk.get_char(j);
                if boundary == '%' {
                    matched = true;
                }
            }
            if matched {
                found = true;
                best = acc;
                best_over = overflowed;
                proof {
                    best_pos = Some(i as nat);
                    assert(sp_percent_pos(chunk@, i as nat) == (
                    match sp_percent_pos(chunk@, j as nat) {
                        Some(p) => Some(p),
                        None => Some(i as nat),
                    }));
                }
            } else {
                proof {
                    assert(sp_percent_pos(chunk@, i as nat) == sp_percent_pos(chunk@, j as nat));
                }
            }
            i = j;
        } else {
            i += 1;
        }
    }
    proof {
        assert(sp_percent_pos(chunk@, len as nat) is None);
        assert(sp_percent_pos(chunk@, 0) == best_pos);
    }
    if found && !best_over {
        Some(best)
    } else {
        None
    }
}

/// Mathematical model of a [`ProgressMonitor`].
pub struct MonitorModel {
    pub position: int,
    pub captured: Seq<Seq<char>>,
}

pub open spec fn sp_monitor_new() -> MonitorModel {
    MonitorModel { position: 0, captured: Seq::empty() }
}

/// A chunk is captured for the error tail, and its last percent token, if
/// any, moves the position counter.
pub open spec fn sp_monitor_chunk(m: MonitorModel, chunk: Seq<char>) -> MonitorModel {
    MonitorModel {
        position: match sp_percent_value(chunk) {
            Some(v) => v,
            None => m.position,
        },
        captured: m.captured.push(chunk),
    }
}

/// True of a line that signals failure: the backend sometimes reports
/// errors on its diagnostic stream with a zero exit, so a line containing
/// `fatal` or `error` is treated as an error marker. This is intentionally
/// permissive and can match legitimate content.
pub open spec fn sp_is_marker(line: Seq<char>) -> bool {
    crate::text::sp_contains(line, "fatal"@) || crate::text::sp_contains(line, "error"@)
}

/// The first marker line at or after `i`.
pub open spec fn sp_first_marker(lines: Seq<Seq<char>>, i: nat) -> Option<nat>
    decreases lines.len() - i,
{
    if i >= lines.len() {
        None
    } else if sp_is_marker(lines[i as int]) {
        Some(i)
    } else {
        sp_first_marker(lines, i + 1)
    }
}

/// The concatenation of the lines from `i` on.
pub open spec fn sp_concat_from(lines: Seq<Seq<char>>, i: nat) -> Seq<char>
    decreases lines.len() - i,
{
    if i >= lines.len() {
        Seq::empty()
    } else {
        lines[i as int] + sp_concat_from(lines, i + 1)
    }
}

/// The error text surfaced from a failed process's captured stream plus the
/// lines drained after exit: everything from the first marker line on, or a
/// fixed notice when no marker was found.
pub open spec fn sp_failure_text(lines: Seq<Seq<char>>) -> Seq<char> {
    match sp_first_marker(lines, 0) {
        Some(i) => sp_concat_from(lines, i),
        None => "Failed to capture git error message"@,
    }
}

/// Monitors one subprocess: tracks a 0–100 position for progress rendering
/// and keeps every raw chunk so a failure's explanation can be
/// reconstructed after the stream closes.
pub struct ProgressMonitor {
    position: u64,
    captured: Vec<String>,
}

impl View for ProgressMonitor {
    type V = MonitorModel;

    closed spec fn view(&self) -> MonitorModel {
        MonitorModel { position: self.position as int, captured: self.captured.deep_view() }
    }
}

impl ProgressMonitor {
    pub fn new() -> (r: Self)
        ensures
            r@ == sp_monitor_new(),
    {
        let r = Self { position: 0, captured: Vec::new() };
        proof {
            assert(r.captured.deep_view() =~= Seq::<Seq<char>>::empty());
        }
        r
    }

    pub fn position(&self) -> (r: u64)
        ensures
            r == self@.position,
    {
        self.position
    }

    /// Consume one raw chunk of the diagnostic stream.
    pub fn observe_chunk(&mut self, chunk: String)
        ensures
            final(self)@ == sp_monitor_chunk(old(self)@, chunk@),
    {
        let ghost predv = self.captured.deep_view();
        match extract_percent(chunk.as_str()) {
            Some(v) => {
                self.position = v;
            },
            None => {},
        }
        let ghost cm = chunk@;
        self.captured.push(chunk);
        proof {
            broadcast use crate::text::lemma_deep_view_len, crate::text::lemma_deep_view_index;

            assert(self.captured.deep_view() =~= predv.push(cm));
        }
    }

    /// The process exited successfully: progress is complete.
    pub fn complete(&mut self)
        ensures
            final(self)@.position == 100,
            final(self)@.captured == old(self)@.captured,
    {
        self.position = 100;
    }

    /// The process failed: together with the lines drained after exit,
    /// surface everything from the first error marker on.
    pub fn failure_message(&self, drained: &Vec<String>) -> (r: String)
        requires
            self@.captured.len() + drained@.len() <= usize::MAX,
        ensures
            r@ == sp_failure_text(self@.captured + drained.deep_view()),
    {
        let ghost all = self@.captured + drained.deep_view();
        let clen = self.captured.len();
        let dlen = drained.len();
        let n = clen + dlen;
        proof {
            broadcast use crate::text::lemma_deep_view_len;

            assert(all.len() == n);
        }
        // find the first marker line
        let mut m: usize = 0;
        let mut marker: Option<usize> = None;
        while m < n && marker.is_none()
            invariant
                m <= n,
                n == clen + dlen,
                clen == self.captured@.len(),
                dlen == drained@.len(),
                all == self@.captured + drained.deep_view(),
                all.len() == n,
                match marker {
                    None => sp_first_marker(all, 0) == sp_first_marker(all, m as nat),
                    Some(idx) => idx < n && sp_first_marker(all, 0) == Some(idx as nat),
                },
            decreases n - m + if marker is None {
                1int
            } else {
                0int
            },
        {
            let line: &String = if m < clen {
                &self.captured[m]
            } else {
                &drained[m - clen]
            };
            proof {
                broadcast use crate::text::lemma_deep_view_len, crate::text::lemma_deep_view_index;

                assert(line@ == all[m as int]);
            }
            let hit = crate::text::str_contains(line.as_str(), "fatal") || crate::text::str_contains(
                line.as_str(),
                "error",
            );
            if hit {
                proof {
                    assert(sp_first_marker(all, m as nat) == Some(m as nat));
                }
                marker = Some(m);
            } else {
                m += 1;
            }
        }
        match marker {
            Some(start) => {
                let mut out = String::new();
                let mut k: usize = start;
                while k < n
                    invariant
                        start <= k <= n,
                        n == clen + dlen,
                        clen == self.captured@.len(),
                        dlen == drained@.len(),
                        all == self@.captured + drained.deep_view(),
                        all.len() == n,
                        out@ + sp_concat_from(all, k as nat) =~= sp_concat_from(all, start as nat),
                    decreases n - k,
                {
                    let line: &String = if k < clen {
                        &self.captured[k]
                    } else {
                        &drained[k - clen]
                    };
                    proof {
                        broadcast use
                            crate::text::lemma_deep_view_len,
                            crate::text::lemma_deep_view_index;

                        assert(line@ == all[k as int]);
                    }
                    out.append(line.as_str());
                    proof {
                        assert(out@ + sp_concat_from(all, (k + 1) as nat) =~= sp_concat_from(
                            all,
                            start as nat,
                        ));
                    }
                    k += 1;
                }
                proof {
                    assert(sp_concat_from(all, n as nat) =~= Seq::<char>::empty());
                    assert(out@ =~= sp_concat_from(all, start as nat));
                }
                out
            },
            None => {
                proof {
                    assert(sp_first_marker(all, 0) is None);
                }
                "Failed to capture git error message".to_owned()
            },
        }
    }
}

pub open spec fn sp_first_colon(t: Seq<char>, i: nat) -> nat
    decreases t.len() - i,
{
    if i >= t.len() {
        i
    } else if t[i as int] == ':' {
        i
    } else {
        sp_first_colon(t, i + 1)
    }
}

pub open spec fn sp_first_non_ws(t: Seq<char>, i: nat) -> nat
    decreases t.len() - i,
{
    if i < t.len() && sp_is_ws(t[i as int]) {
        sp_first_non_ws(t, i + 1)
    } else {
        i
    }
}

pub open spec fn sp_last_non_ws(t: Seq<char>) -> nat
    decreases t.len(),
{
    if t.len() == 0 {
        0
    } else if sp_is_ws(t.last()) {
        sp_last_non_ws(t.drop_last())
    } else {
        t.len()
    }
}

/// `t` with leading and trailing whitespace removed.
pub open spec fn sp_trim(t: Seq<char>) -> Seq<char> {
    let a = sp_first_non_ws(t, 0);
    let b = sp_last_non_ws(t);
    if a < b {
        t.subrange(a as int, b as int)
    } else {
        Seq::empty()
    }
}

/// The info label of a chunk: the text before the first colon, trimmed —
/// what the backend names the phase it is reporting on.
pub open spec fn sp_chunk_info(t: Seq<char>) -> Seq<char> {
    sp_trim(t.subrange(0, sp_first_colon(t, 0) as int))
}

/// An all-whitespace text trims from the right down to nothing.
proof fn lemma_last_non_ws_all_ws(t: Seq<char>)
    requires
        forall|k: int| 0 <= k < t.len() ==> sp_is_ws(#[trigger] t[k]),
    ensures
        sp_last_non_ws(t) == 0,
    decreases t.len(),
{
    if t.len() > 0 {
        assert(forall|k: int|
            0 <= k < t.drop_last().len() ==> sp_is_ws(#[trigger] t.drop_last()[k]));
        lemma_last_non_ws_all_ws(t.drop_last());
    }
}

/// The info label before the first colon, trimmed.
pub fn chunk_info(chunk: &str) -> (r: String)
    ensures
        r@ == sp_chunk_info(chunk@),
{
    let len = chunk.unicode_len();
    let mut c: usize = 0;
    while c < len && chunk.get_char(c) != ':'
        invariant
            c <= len,
            len == chunk@.len(),
            sp_first_colon(chunk@, 0) == sp_first_colon(chunk@, c as nat),
        decreases len - c,
    {
        c += 1;
    }
    proof {
        assert(sp_first_colon(chunk@, c as nat) == c);
    }
    let head = chunk.substring_char(0, c);
    let ghost ht = chunk@.subrange(0, c as int);
    let hlen = head.unicode_len();
    let mut a: usize = 0;
    while a < hlen && is_ws_char(head.get_char(a))
        invariant
            a <= hlen,
            hlen == ht.len(),
            head@ == ht,
            sp_first_non_ws(ht, 0) == sp_first_non_ws(ht, a as nat),
            forall|k: int| 0 <= k < a ==> sp_is_ws(#[trigger] ht[k]),
        decreases hlen - a,
    {
        a += 1;
    }
    proof {
        assert(sp_first_non_ws(ht, a as nat) == a);
    }
    let mut b: usize = hlen;
    proof {
        assert(ht.subrange(0, hlen as int) =~= ht);
    }
    while b > a && is_ws_char(head.get_char(b - 1))
        invariant
            a <= b <= hlen,
            hlen == ht.len(),
            head@ == ht,
            a == sp_first_non_ws(ht, 0),
            forall|k: int| 0 <= k < a ==> sp_is_ws(#[trigger] ht[k]),
            sp_last_non_ws(ht.subrange(0, b as int)) == sp_last_non_ws(ht),
            forall|k: int| b <= k < hlen ==> sp_is_ws(#[trigger] ht[k]),
        decreases b,
    {
        proof {
            assert(ht.subrange(0, b as int).drop_last() =~= ht.subrange(0, b - 1));
            assert(ht.subrange(0, b as int).last() == ht[b - 1]);
        }
        b -= 1;
    }
    if b > a {
        proof {
            assert(ht.subrange(0, b as int).last() == ht[b - 1]);
            assert(sp_last_non_ws(ht.subrange(0, b as int)) == b);
            assert(sp_last_non_ws(ht) == b);
        }
        let r = head.substring_char(a, b).to_owned();
        proof {
            assert(r@ =~= sp_trim(ht));
        }
        r
    } else {
        proof {
            assert(b == a);
            assert(forall|k: int| 0 <= k < ht.len() ==> sp_is_ws(#[trigger] ht[k]));
            lemma_last_non_ws_all_ws(ht);
            assert(sp_trim(ht) =~= Seq::<char>::empty());
        }
        String::new()
    }
}

} // verus!
