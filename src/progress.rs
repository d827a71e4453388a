use vstd::prelude::*;

use crate::text::{chars_of, text_is};

verus! {

/// The largest percentage, in tenths of a percent.
pub const FULL_PERCENT: u16 = 1000;

/// One progress report of the download tool. Every field is optional: a line
/// may carry any subset of them.
pub struct ProgressEvent {
    /// Progress in tenths of a percent (`455` is 45.5%).
    pub percent_tenths: Option<u16>,
    /// Human-readable speed, such as `2.00MiB/s`.
    pub speed: Option<String>,
    /// Estimated time left, in seconds.
    pub eta_secs: Option<u64>,
}

impl ProgressEvent {
    /// The event's fields as plain values: percentage, speed and time left.
    pub open spec fn fields(self) -> (Option<u16>, Option<Seq<char>>, Option<u64>) {
        (
            self.percent_tenths,
            match self.speed {
                Some(t) => Some(t@),
                None => None,
            },
            self.eta_secs,
        )
    }
}

pub open spec fn is_space(c: char) -> bool {
    c == ' ' || c == '\t' || c == '\r' || c == '\n'
}

pub open spec fn is_digit(c: char) -> bool {
    '0' <= c <= '9'
}

pub open spec fn digit_value(c: char) -> int {
    c as int - '0' as int
}

/// The words of `s`: its maximal runs of characters other than white space.
pub open spec fn words(s: Seq<char>) -> Seq<Seq<char>>
    decreases s.len(),
{
    if s.len() == 0 {
        seq![]
    } else {
        let w = words(s.drop_last());
        let c = s.last();
        if is_space(c) {
            w
        } else if s.len() >= 2 && !is_space(s[s.len() - 2]) {
            w.drop_last().push(w.last().push(c))
        } else {
            w.push(seq![c])
        }
    }
}

/// The word that follows the first `key` among `w[i..]`, if any.
pub open spec fn word_after(w: Seq<Seq<char>>, key: Seq<char>, i: int) -> Option<Seq<char>>
    decreases w.len() - i,
{
    if i < 0 || i + 1 >= w.len() {
        None
    } else if w[i] == key {
        Some(w[i + 1])
    } else {
        word_after(w, key, i + 1)
    }
}

/// One or two digits, and their value.
pub open spec fn small_number(s: Seq<char>) -> Option<int> {
    if s.len() == 1 && is_digit(s[0]) {
        Some(digit_value(s[0]))
    } else if s.len() == 2 && is_digit(s[0]) && is_digit(s[1]) {
        Some(10 * digit_value(s[0]) + digit_value(s[1]))
    } else {
        None
    }
}

/// `s` ends in a colon and two digits: the value of those digits.
pub open spec fn colon_field(s: Seq<char>) -> Option<int> {
    if s.len() >= 3 && s[s.len() - 3] == ':' && is_digit(s[s.len() - 2]) && is_digit(
        s[s.len() - 1],
    ) {
        Some(10 * digit_value(s[s.len() - 2]) + digit_value(s[s.len() - 1]))
    } else {
        None
    }
}

/// A time left written `M:SS`, `MM:SS`, `H:MM:SS` or `HH:MM:SS`, in seconds.
pub open spec fn eta_of(s: Seq<char>) -> Option<u64> {
    match colon_field(s) {
        None => None,
        Some(secs) => {
            let head = s.take(s.len() - 3);
            match small_number(head) {
                Some(m) => Some((m * 60 + secs) as u64),
                None => match colon_field(head) {
                    Some(m) => match small_number(head.take(head.len() - 3)) {
                        Some(h) => Some((h * 3600 + m * 60 + secs) as u64),
                        None => None,
                    },
                    None => None,
                },
            }
        },
    }
}

/// A percentage written `D%`, `DD%` or `DDD%`, each optionally with a
/// fraction (`45.3%`; digits after the first are ignored), in tenths of a
/// percent; none above 100%.
pub open spec fn percent_of(s: Seq<char>) -> Option<u16> {
    if s.len() < 2 || s.last() != '%' {
        None
    } else {
        let body = s.drop_last();
        let k = dot_index(body, 0);
        let int_part = body.take(k);
        let frac = body.skip(k + 1);
        if !(1 <= k <= 3 && all_digits(int_part)) {
            None
        } else if k < body.len() && !(frac.len() >= 1 && all_digits(frac)) {
            None
        } else {
            let tenths = 10 * digits_value(int_part) + if k < body.len() {
                digit_value(frac[0])
            } else {
                0
            };
            if tenths <= FULL_PERCENT {
                Some(tenths as u16)
            } else {
                None
            }
        }
    }
}

/// The position of the first `.` in `s` at or after `i`, or `s.len()`.
pub open spec fn dot_index(s: Seq<char>, i: int) -> int
    decreases s.len() - i,
{
    if i < 0 || i >= s.len() {
        s.len() as int
    } else if s[i] == '.' {
        i
    } else {
        dot_index(s, i + 1)
    }
}

pub open spec fn all_digits(s: Seq<char>) -> bool {
    forall|i: int| 0 <= i < s.len() ==> is_digit(#[trigger] s[i])
}

pub open spec fn digits_value(s: Seq<char>) -> int
    decreases s.len(),
{
    if s.len() == 0 {
        0
    } else {
        10 * digits_value(s.drop_last()) + digit_value(s.last())
    }
}

/// What a line of the download tool's progress output reports. A line is
/// recognised when its first word is `[download]`; the percentage is its second
/// word, the speed the word after `at` (unless `Unknown`), and the time left
/// the word after `ETA`. A recognised line with none of the three reports
/// nothing.
pub open spec fn line_event(line: Seq<char>) -> Option<(Option<u16>, Option<Seq<char>>, Option<u64>)> {
    let w = words(line);
    if w.len() == 0 || w[0] != "[download]"@ {
        None
    } else {
        let percent = if w.len() >= 2 {
            percent_of(w[1])
        } else {
            None
        };
        let speed = match word_after(w, "at"@, 0) {
            Some(t) => if t == "Unknown"@ {
                None
            } else {
                Some(t)
            },
            None => None,
        };
        let eta = match word_after(w, "ETA"@, 0) {
            Some(t) => eta_of(t),
            None => None,
        };
        if percent is None && speed is None && eta is None {
            None
        } else {
            Some((percent, speed, eta))
        }
    }
}

/// The pieces of `s` between the pairs of `spans`.
pub open spec fn spans_text(s: Seq<char>, spans: Seq<(usize, usize)>) -> Seq<Seq<char>> {
    spans.map_values(|p: (usize, usize)| s.subrange(p.0 as int, p.1 as int))
}

pub open spec fn spans_valid(s: Seq<char>, spans: Seq<(usize, usize)>) -> bool {
    forall|k: int| 0 <= k < spans.len() ==> #[trigger] spans[k].0 <= spans[k].1 <= s.len()
}

fn is_space_char(c: char) -> (r: bool)
    ensures
        r == is_space(c),
{
    c == ' ' || c == '\t' || c == '\r' || c == '\n'
}

/// Where each word of `s` starts and ends.
fn word_spans(s: &Vec<char>) -> (spans: Vec<(usize, usize)>)
    ensures
        spans_valid(s@, spans@),
        spans_text(s@, spans@) == words(s@),
{
    let mut spans: Vec<(usize, usize)> = Vec::new();
    let mut in_word = false;
    let mut start: usize = 0;
    let mut i: usize = 0;
    while i < s.len()
        invariant
            i <= s@.len(),
            spans_valid(s@, spans@),
            in_word <==> (i > 0 && !is_space(s@[i - 1])),
            in_word ==> start < i,
            words(s@.take(i as int)) == if in_word {
                spans_text(s@, spans@).push(s@.subrange(start as int, i as int))
            } else {
                spans_text(s@, spans@)
            },
        decreases s@.len() - i,
    {
        let c = s[i];
        let ghost pre = s@.take(i as int);
        let ghost next = s@.take(i + 1);
        assert(next.drop_last() =~= pre);
        assert(next.last() == c);
        if is_space_char(c) {
            if in_word {
                let ghost before = spans@;
                spans.push((start, i));
                assert(spans_text(s@, spans@) =~= spans_text(s@, before).push(
                    s@.subrange(start as int, i as int),
                ));
            }
            in_word = false;
        } else {
            if in_word {
                assert(s@.subrange(start as int, i + 1) =~= s@.subrange(start as int, i as int).push(c));
                let ghost w = words(pre);
                assert(w.drop_last() =~= spans_text(s@, spans@));
            } else {
                start = i;
                assert(s@.subrange(start as int, i + 1) =~= seq![c]);
            }
            in_word = true;
        }
        i += 1;
    }
    if in_word {
        let ghost before = spans@;
        spans.push((start, i));
        assert(spans_text(s@, spans@) =~= spans_text(s@, before).push(
            s@.subrange(start as int, i as int),
        ));
    }
    assert(s@.take(s@.len() as int) =~= s@);
    spans
}

/// The position in `spans` of the word that follows the first word `key`.
fn find_after(s: &Vec<char>, spans: &Vec<(usize, usize)>, key: &str) -> (r: Option<usize>)
    requires
        spans_valid(s@, spans@),
    ensures
        match r {
            Some(k) => k < spans@.len() && word_after(spans_text(s@, spans@), key@, 0) == Some(
                spans_text(s@, spans@)[k as int],
            ),
            None => word_after(spans_text(s@, spans@), key@, 0) is None,
        },
{
    let ghost w = spans_text(s@, spans@);
    let mut i: usize = 0;
    while i < spans.len() && i + 1 < spans.len()
        invariant
            spans_valid(s@, spans@),
            w == spans_text(s@, spans@),
            i < spans@.len() || spans@.len() == 0,
            word_after(w, key@, 0) == word_after(w, key@, i as int),
        decreases spans@.len() - i,
    {
        let (a, b) = spans[i];
        assert(spans@[i as int].0 <= spans@[i as int].1 <= s@.len());
        if text_is(s, a, b, key) {
            return Some(i + 1);
        }
        i += 1;
    }
    None
}

/// The value of the digits `s[a..b]`, of which there are at most three.
fn small_digits_value(s: &Vec<char>, a: usize, b: usize) -> (v: u16)
    requires
        a <= b <= s@.len(),
        b - a <= 3,
        all_digits(s@.subrange(a as int, b as int)),
    ensures
        v == digits_value(s@.subrange(a as int, b as int)),
        v < 1000,
{
    let mut v: u16 = 0;
    let mut j: usize = a;
    while j < b
        invariant
            a <= j <= b <= s@.len(),
            b - a <= 3,
            all_digits(s@.subrange(a as int, b as int)),
            v == digits_value(s@.subrange(a as int, j as int)),
            v < if j - a == 0 { 1int } else if j - a == 1 { 10int } else if j - a == 2 { 100int } else { 1000int },
        decreases b - j,
    {
        assert(is_digit(s@.subrange(a as int, b as int)[j - a]));
        let d = (s[j] as u32 - '0' as u32) as u16;
        assert(s@.subrange(a as int, j + 1).drop_last() =~= s@.subrange(a as int, j as int));
        v = 10 * v + d;
        j += 1;
    }
    v
}

fn is_digit_char(c: char) -> (r: bool)
    ensures
        r == is_digit(c),
{
    '0' <= c && c <= '9'
}

/// Whether every character of `s[a..b]` is a digit.
fn digits_only(s: &Vec<char>, a: usize, b: usize) -> (r: bool)
    requires
        a <= b <= s@.len(),
    ensures
        r == all_digits(s@.subrange(a as int, b as int)),
{
    let mut j: usize = a;
    while j < b
        invariant
            a <= j <= b <= s@.len(),
            forall|k: int| a <= k < j ==> is_digit(s@[k]),
        decreases b - j,
    {
        if !is_digit_char(s[j]) {
            assert(!is_digit(s@.subrange(a as int, b as int)[j - a]));
            return false;
        }
        j += 1;
    }
    assert forall|k: int| 0 <= k < b - a implies is_digit(
        #[trigger] s@.subrange(a as int, b as int)[k],
    ) by {
        assert(is_digit(s@[a + k]));
    }
    true
}

/// Reads the percentage word `s[a..b]`.
fn parse_percent(s: &Vec<char>, a: usize, b: usize) -> (r: Option<u16>)
    requires
        a <= b <= s@.len(),
    ensures
        r == percent_of(s@.subrange(a as int, b as int)),
{
    let ghost t = s@.subrange(a as int, b as int);
    if b - a < 2 || s[b - 1] != '%' {
        return None;
    }
    let e = b - 1;
    let ghost body = t.drop_last();
    assert(body =~= s@.subrange(a as int, e as int));
    let mut k: usize = a;
    while k < e && s[k] != '.'
        invariant
            a <= k <= e < b <= s@.len(),
            body == s@.subrange(a as int, e as int),
            dot_index(body, 0) == dot_index(body, k - a),
        decreases e - k,
    {
        k += 1;
    }
    let ghost kk = dot_index(body, 0);
    assert(kk == k - a);
    assert(body.take(kk) =~= s@.subrange(a as int, k as int));
    if !(1 <= k - a && k - a <= 3 && digits_only(s, a, k)) {
        return None;
    }
    let whole = small_digits_value(s, a, k);
    let mut frac: u16 = 0;
    if k < e {
        assert(body.skip(kk + 1) =~= s@.subrange(k + 1, e as int));
        if !(k + 1 < e && digits_only(s, k + 1, e)) {
            return None;
        }
        assert(body.skip(kk + 1)[0] == s@[k + 1]);
        assert(is_digit(s@.subrange(k + 1, e as int)[0]));
        frac = (s[k + 1] as u32 - '0' as u32) as u16;
    }
    let tenths = 10 * whole + frac;
    if tenths <= FULL_PERCENT {
        Some(tenths)
    } else {
        None
    }
}

fn digit_at(s: &Vec<char>, j: usize) -> (d: u64)
    requires
        j < s@.len(),
        is_digit(s@[j as int]),
    ensures
        d == digit_value(s@[j as int]),
        d <= 9,
{
    (s[j] as u32 - '0' as u32) as u64
}

/// Reads `s[a..b]` as one or two digits.
fn small_number_at(s: &Vec<char>, a: usize, b: usize) -> (r: Option<u64>)
    requires
        a <= b <= s@.len(),
    ensures
        match r {
            Some(v) => small_number(s@.subrange(a as int, b as int)) == Some(v as int) && v < 100,
            None => small_number(s@.subrange(a as int, b as int)) is None,
        },
{
    let ghost t = s@.subrange(a as int, b as int);
    if b - a == 1 && is_digit_char(s[a]) {
        assert(t[0] == s@[a as int]);
        Some(digit_at(s, a))
    } else if b - a == 2 && is_digit_char(s[a]) && is_digit_char(s[a + 1]) {
        assert(t[0] == s@[a as int] && t[1] == s@[a + 1]);
        Some(10 * digit_at(s, a) + digit_at(s, a + 1))
    } else {
        assert(b - a == 1 ==> t[0] == s@[a as int]);
        assert(b - a == 2 ==> t[0] == s@[a as int] && t[1] == s@[a + 1]);
        None
    }
}

/// Reads the last three characters of `s[a..b]` as a colon and two digits.
fn colon_field_at(s: &Vec<char>, a: usize, b: usize) -> (r: Option<u64>)
    requires
        a <= b <= s@.len(),
    ensures
        match r {
            Some(v) => colon_field(s@.subrange(a as int, b as int)) == Some(v as int) && v < 100
                && b - a >= 3,
            None => colon_field(s@.subrange(a as int, b as int)) is None,
        },
{
    let ghost t = s@.subrange(a as int, b as int);
    if b - a < 3 {
        return None;
    }
    assert(t[t.len() - 3] == s@[b - 3] && t[t.len() - 2] == s@[b - 2] && t[t.len() - 1] == s@[b
        - 1]);
    if s[b - 3] == ':' && is_digit_char(s[b - 2]) && is_digit_char(s[b - 1]) {
        Some(10 * digit_at(s, b - 2) + digit_at(s, b - 1))
    } else {
        None
    }
}

/// Reads the time-left word `s[a..b]`.
fn parse_eta(s: &Vec<char>, a: usize, b: usize) -> (r: Option<u64>)
    requires
        a <= b <= s@.len(),
    ensures
        r == eta_of(s@.subrange(a as int, b as int)),
{
    let ghost t = s@.subrange(a as int, b as int);
    let secs = match colon_field_at(s, a, b) {
        Some(v) => v,
        None => {
            return None;
        },
    };
    let hb = b - 3;
    let ghost head = t.take(t.len() - 3);
    assert(head =~= s@.subrange(a as int, hb as int));
    if let Some(m) = small_number_at(s, a, hb) {
        return Some(m * 60 + secs);
    }
    let m = match colon_field_at(s, a, hb) {
        Some(v) => v,
        None => {
            return None;
        },
    };
    assert(head.take(head.len() - 3) =~= s@.subrange(a as int, hb - 3));
    match small_number_at(s, a, hb - 3) {
        Some(h) => Some(h * 3600 + m * 60 + secs),
        None => None,
    }
}

/// Reads one line of the download tool's progress output. Lines that report no
/// progress, and text in any other shape, give `None`.
pub fn parse_ytdl_output_line(line: &str) -> (r: Option<ProgressEvent>)
    ensures
        match r {
            Some(ev) => line_event(line@) == Some(ev.fields()),
            None => line_event(line@) is None,
        },
{
    let s = chars_of(line);
    let spans = word_spans(&s);
    if spans.len() == 0 {
        return None;
    }
    let (a0, b0) = spans[0];
    assert(spans@[0].0 <= spans@[0].1 <= s@.len());
    if !text_is(&s, a0, b0, "[download]") {
        return None;
    }
    let percent = if spans.len() >= 2 {
        let (a1, b1) = spans[1];
        assert(spans@[1].0 <= spans@[1].1 <= s@.len());
        parse_percent(&s, a1, b1)
    } else {
        None
    };
    let speed = match find_after(&s, &spans, "at") {
        Some(k) => {
            let (a, b) = spans[k];
            assert(spans@[k as int].0 <= spans@[k as int].1 <= s@.len());
            if text_is(&s, a, b, "Unknown") {
                None
            } else {
                let piece = line.substring_char(a, b);
                Some(String::from_str(piece))
            }
        },
        None => None,
    };
    let eta_secs = match find_after(&s, &spans, "ETA") {
        Some(k) => {
            let (a, b) = spans[k];
            assert(spans@[k as int].0 <= spans@[k as int].1 <= s@.len());
            parse_eta(&s, a, b)
        },
        None => None,
    };
    if percent.is_none() && speed.is_none() && eta_secs.is_none() {
        return None;
    }
    Some(ProgressEvent { percent_tenths: percent, speed, eta_secs })
}

} // verus!
