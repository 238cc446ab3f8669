//! Live-window-observation widget: extracts a notification count from a
//! matching window title and caches it for a bounded interval.
//!
//! The widget itself never touches the operating system: the caller hands
//! every tick the current time in milliseconds on a monotonic clock, and,
//! when a refresh is due, the titles of the currently open top-level
//! windows. Everything the widget decides — which title matches, what
//! count it carries, whether the cache is still fresh, and what string is
//! presented — is verified here.

use vstd::prelude::*;
use vstd::string::*;
use crate::text::all_digits;
use crate::text::contains_seq;
use crate::text::dec_str;
use crate::text::digit_val;
use crate::text::digits_val;
use crate::text::is_digit;
use crate::text::title_contains;
use crate::text::u32_to_string;

verus! {

/// Presentation policy: whether a fixed text label, an icon, both, or
/// neither (`Hidden`) prefixes the numeric output.
#[derive(Copy, Clone, Debug, PartialEq, Eq, Structural)]
pub enum LabelPrefix {
    Hidden,
    Icon,
    Text,
    IconAndText,
}

/// Configuration consumed at construction; optional fields fall back to
/// defaults (interval 2 s, icon-and-text prefix, keyword "Discord").
#[derive(Clone, Debug)]
pub struct DiscordConfig {
    pub enable: bool,
    pub data_refresh_interval: Option<u64>,
    pub label_prefix: Option<LabelPrefix>,
    pub window_filter_keyword: Option<String>,
}

/// The widget: immutable configuration plus the observation cache
/// (`last_updated`, `notification_count`), which only the refresh step of
/// `output` mutates.
#[derive(Clone, Debug)]
pub struct Discord {
    pub enable: bool,
    pub data_refresh_interval: u64,
    pub label_prefix: LabelPrefix,
    pub window_filter_keyword: String,
    pub last_updated: u64,
    pub notification_count: u32,
}

/// The position of the first `')'` in `s`, or `s.len()` if there is none.
pub open spec fn first_rparen(s: Seq<char>) -> int
    decreases s.len(),
{
    if s.len() == 0 {
        0
    } else if s[0] == ')' {
        0
    } else {
        1 + first_rparen(s.drop_first())
    }
}

/// `first_rparen` is in range, points at a `')'` when one exists, and
/// nothing before it is a `')'`.
pub proof fn lemma_first_rparen(s: Seq<char>)
    ensures
        0 <= first_rparen(s) <= s.len(),
        forall|k: int| 0 <= k < first_rparen(s) ==> s[k] != ')',
        first_rparen(s) < s.len() ==> s[first_rparen(s)] == ')',
    decreases s.len(),
{
    if s.len() == 0 {
    } else if s[0] == ')' {
    } else {
        lemma_first_rparen(s.drop_first());
        assert forall|k: int| 0 <= k < first_rparen(s) implies s[k] != ')' by {
            if k > 0 {
                assert(s.drop_first()[k - 1] == s[k]);
                assert(k - 1 < first_rparen(s.drop_first()));
            }
        }
        if first_rparen(s) < s.len() {
            assert(s[first_rparen(s)] == s.drop_first()[first_rparen(s.drop_first())]);
        }
    }
}

/// `first_rparen` is the unique position that points at a `')'` with no
/// `')'` before it.
pub proof fn lemma_first_rparen_is(s: Seq<char>, j: int)
    requires
        0 <= j < s.len(),
        s[j] == ')',
        forall|k: int| 0 <= k < j ==> s[k] != ')',
    ensures
        first_rparen(s) == j,
{
    lemma_first_rparen(s);
    let f = first_rparen(s);
    if f < j {
        assert(s[f] == ')');
    } else if f > j {
        assert(s[j] != ')');
    }
}

/// What `parse_notification_count` returns on a title: if the title starts
/// with `'('`, the text up to the first `')'` is read as a decimal
/// unsigned integer; any malformation (no `'('` at the start, no `')'`,
/// empty or non-numeric or oversized digits) degrades to zero.
pub open spec fn parse_count_spec(t: Seq<char>) -> u32 {
    if t.len() == 0 || t[0] != '(' {
        0u32
    } else {
        let j = first_rparen(t);
        if j >= t.len() {
            0u32
        } else {
            let inner = t.subrange(1, j);
            if inner.len() > 0 && all_digits(inner) && digits_val(inner) <= u32::MAX {
                digits_val(inner) as u32
            } else {
                0u32
            }
        }
    }
}

/// The title the scanner selects from `titles` (in enumeration order) for
/// `keyword`: the last title that contains the keyword, or nothing when no
/// title matches. Last-match-wins mirrors the scan protocol, where every
/// match overwrites the result slot.
pub open spec fn select_title(titles: Seq<Seq<char>>, keyword: Seq<char>) -> Option<Seq<char>>
    decreases titles.len(),
{
    if titles.len() == 0 {
        Option::None
    } else if contains_seq(titles.last(), keyword) {
        Option::Some(titles.last())
    } else {
        select_title(titles.drop_last(), keyword)
    }
}

/// `select_title` yields a title exactly when some title matches, and what
/// it yields is a matching title with no later match in enumeration order.
pub proof fn lemma_select_title(titles: Seq<Seq<char>>, keyword: Seq<char>)
    ensures
        select_title(titles, keyword) is Some <==> exists|i: int|
            0 <= i < titles.len() && contains_seq(titles[i], keyword),
        select_title(titles, keyword) is Some ==> exists|i: int|
            {
                &&& 0 <= i < titles.len()
                &&& titles[i] == select_title(titles, keyword).unwrap()
                &&& contains_seq(titles[i], keyword)
                &&& forall|p: int| i < p < titles.len() ==> !contains_seq(titles[p], keyword)
            },
    decreases titles.len(),
{
    if titles.len() == 0 {
    } else if contains_seq(titles.last(), keyword) {
        let n = titles.len() - 1;
        assert(0 <= n < titles.len() && contains_seq(titles[n], keyword));
        assert(titles[n] == select_title(titles, keyword).unwrap());
        assert(forall|p: int| n < p < titles.len() ==> !contains_seq(titles[p], keyword));
    } else {
        let front = titles.drop_last();
        lemma_select_title(front, keyword);
        assert(forall|i: int| 0 <= i < front.len() ==> front[i] == titles[i]);
        if select_title(titles, keyword) is Some {
            let i = choose|i: int|
                {
                    &&& 0 <= i < front.len()
                    &&& front[i] == select_title(front, keyword).unwrap()
                    &&& contains_seq(front[i], keyword)
                    &&& forall|p: int| i < p < front.len() ==> !contains_seq(front[p], keyword)
                };
            assert(titles[i] == select_title(titles, keyword).unwrap());
            assert(forall|p: int| i < p < titles.len() ==> !contains_seq(titles[p], keyword));
        }
        if exists|i: int| 0 <= i < titles.len() && contains_seq(titles[i], keyword) {
            let i = choose|i: int| 0 <= i < titles.len() && contains_seq(titles[i], keyword);
            assert(i < front.len() && front[i] == titles[i]);
        }
    }
}

/// Milliseconds elapsed from `last` to `now` on a monotonic clock
/// (zero when `now` is not past `last`).
pub open spec fn spec_elapsed(last: u64, now: u64) -> int {
    if now >= last {
        now - last
    } else {
        0
    }
}

/// The tick decision: STALE (a new scan is due) when the time elapsed
/// since the last refresh exceeds the configured interval in seconds.
pub open spec fn spec_refresh_due(d: Discord, now_ms: u64) -> bool {
    spec_elapsed(d.last_updated, now_ms) > d.data_refresh_interval * 1000
}

/// The presentation string for a label mode and a cached count: with a
/// text label, `"DISC"` followed by the count when it is positive; without
/// one, the bare count when positive, else the empty string.
pub open spec fn spec_output_string(prefix: LabelPrefix, count: u32) -> Seq<char> {
    match prefix {
        LabelPrefix::Text | LabelPrefix::IconAndText => {
            if count > 0 {
                "DISC "@ + dec_str(count as nat)
            } else {
                "DISC"@
            }
        },
        LabelPrefix::Hidden | LabelPrefix::Icon => {
            if count > 0 {
                dec_str(count as nat)
            } else {
                Seq::<char>::empty()
            }
        },
    }
}

impl Discord {
    /// Builds the widget from its configuration at time `now_ms`, filling
    /// each absent option with its default; the cached count starts at
    /// zero and the first refresh falls due one interval after `now_ms`.
    pub fn from_config(config: DiscordConfig, now_ms: u64) -> (r: Discord)
        ensures
            r.enable == config.enable,
            r.data_refresh_interval == match config.data_refresh_interval {
                Option::Some(v) => v,
                Option::None => 2u64,
            },
            r.label_prefix == match config.label_prefix {
                Option::Some(p) => p,
                Option::None => LabelPrefix::IconAndText,
            },
            r.window_filter_keyword@ == match config.window_filter_keyword {
                Option::Some(k) => k@,
                Option::None => "Discord"@,
            },
            r.last_updated == now_ms,
            r.notification_count == 0,
    {
        Discord {
            enable: config.enable,
            data_refresh_interval: match config.data_refresh_interval {
                Option::Some(v) => v,
                Option::None => 2,
            },
            label_prefix: match config.label_prefix {
                Option::Some(p) => p,
                Option::None => LabelPrefix::IconAndText,
            },
            window_filter_keyword: match config.window_filter_keyword {
                Option::Some(k) => k,
                Option::None => String::from_str("Discord"),
            },
            last_updated: now_ms,
            notification_count: 0,
        }
    }

    /// Whether the cache is STALE at `now_ms`, so that the next `output`
    /// call will scan.
    pub fn refresh_due(&self, now_ms: u64) -> (r: bool)
        ensures
            r == spec_refresh_due(*self, now_ms),
    {
        let elapsed: u64 = if now_ms >= self.last_updated {
            now_ms - self.last_updated
        } else {
            0
        };
        (elapsed as u128) > (self.data_refresh_interval as u128) * 1000
    }

    /// The scanner's selection step: among the titles of the open
    /// top-level windows, in enumeration order, picks the last one that
    /// contains this widget's filter keyword; none when no title matches
    /// (an enumeration failure is handed in as an empty title list and so
    /// also yields none).
    pub fn find_window_title(&self, titles: &Vec<String>) -> (r: Option<String>)
        ensures
            r is Some <==> select_title(titles.deep_view(), self.window_filter_keyword@) is Some,
            r is Some ==> r.unwrap()@ == select_title(
                titles.deep_view(),
                self.window_filter_keyword@,
            ).unwrap(),
            r is Some ==> contains_seq(r.unwrap()@, self.window_filter_keyword@),
            r is None <==> (forall|i: int|
                0 <= i < titles.deep_view().len() ==> !contains_seq(
                    titles.deep_view()[i],
                    self.window_filter_keyword@,
                )),
    {
        let ghost all = titles.deep_view();
        let ghost kw = self.window_filter_keyword@;
        let n = titles.len();
        let mut best: Option<String> = Option::None;
        let mut idx: usize = 0;
        while idx < n
            invariant
                n == titles@.len(),
                idx <= n,
                all == titles.deep_view(),
                kw == self.window_filter_keyword@,
                best is Some <==> select_title(all.subrange(0, idx as int), kw) is Some,
                best is Some ==> best.unwrap()@ == select_title(
                    all.subrange(0, idx as int),
                    kw,
                ).unwrap(),
            decreases n - idx,
        {
            proof {
                assert(all[idx as int] == titles@[idx as int]@);
            }
            let matched = title_contains(titles[idx].as_str(), self.window_filter_keyword.as_str());
            proof {
                let pre = all.subrange(0, idx as int);
                let ext = all.subrange(0, idx + 1);
                assert(ext.drop_last() =~= pre);
                assert(ext.last() == all[idx as int]);
            }
            if matched {
                best = Option::Some(titles[idx].clone());
            }
            idx += 1;
        }
        proof {
            assert(all.subrange(0, n as int) =~= all);
            lemma_select_title(all, kw);
        }
        best
    }

    /// One render tick. `now_ms` is the current time on the caller's
    /// monotonic clock; `scan` is the scanner's result for this tick and
    /// is consulted only when a refresh is due. When the cache is STALE
    /// the count is re-read from the scanned title (zero on a miss) and
    /// the refresh time moves to `now_ms` unconditionally; when FRESH the
    /// state is left untouched and `scan` is ignored. The returned string
    /// presents the cached count per the configured label mode.
    pub fn output(&mut self, now_ms: u64, scan: Option<String>) -> (r: String)
        ensures
            final(self).enable == old(self).enable,
            final(self).data_refresh_interval == old(self).data_refresh_interval,
            final(self).label_prefix == old(self).label_prefix,
            final(self).window_filter_keyword == old(self).window_filter_keyword,
            spec_refresh_due(*old(self), now_ms) ==> final(self).last_updated == now_ms
                && final(self).notification_count == match scan {
                Option::Some(title) => parse_count_spec(title@),
                Option::None => 0u32,
            },
            !spec_refresh_due(*old(self), now_ms) ==> *final(self) == *old(self),
            r@ == spec_output_string(final(self).label_prefix, final(self).notification_count),
    {
        if self.refresh_due(now_ms) {
            match scan {
                Option::Some(title) => {
                    self.notification_count = self.parse_notification_count(title.as_str());
                },
                Option::None => {
                    self.notification_count = 0;
                },
            }
            self.last_updated = now_ms;
        }
        match self.label_prefix {
            LabelPrefix::Text | LabelPrefix::IconAndText => {
                if self.notification_count > 0 {
                    let mut s = String::from_str("DISC ");
                    let num = u32_to_string(self.notification_count);
                    s.append(num.as_str());
                    s
                } else {
                    String::from_str("DISC")
                }
            },
            LabelPrefix::Hidden | LabelPrefix::Icon => {
                if self.notification_count > 0 {
                    u32_to_string(self.notification_count)
                } else {
                    String::new()
                }
            },
        }
    }

    /// Parses the notification count out of a window title of the shape
    /// `"(count) rest"`; every malformed title yields zero.
    pub fn parse_notification_count(&self, title: &str) -> (r: u32)
        ensures
            r == parse_count_spec(title@),
    {
        let len = title.unicode_len();
        if len == 0 {
            return 0;
        }
        if title.get_char(0) != '(' {
            return 0;
        }
        let mut j: usize = 0;
        loop
            invariant
                len == title@.len(),
                0 < len,
                title@[0] == '(',
                j <= len,
                forall|k: int| 0 <= k < j ==> title@[k] != ')',
            ensures
                j <= len,
                forall|k: int| 0 <= k < j ==> title@[k] != ')',
                j == len || title@[j as int] == ')',
            decreases len - j,
        {
            if j == len {
                break;
            }
            if title.get_char(j) == ')' {
                break;
            }
            j += 1;
        }
        proof {
            lemma_first_rparen(title@);
            if j < len {
                lemma_first_rparen_is(title@, j as int);
            } else {
                if first_rparen(title@) < len as int {
                    assert(title@[first_rparen(title@)] == ')');
                }
            }
            assert(first_rparen(title@) == j as int);
        }
        if j == len {
            return 0;
        }
        if j == 1 {
            proof {
                assert(title@.subrange(1, 1).len() == 0);
            }
            return 0;
        }
        let ghost inner = title@.subrange(1, j as int);
        let mut acc: u32 = 0;
        let mut i: usize = 1;
        while i < j
            invariant
                len == title@.len(),
                0 < len,
                title@[0] == '(',
                first_rparen(title@) == j as int,
                2 <= j < len,
                1 <= i <= j,
                inner == title@.subrange(1, j as int),
                all_digits(title@.subrange(1, i as int)),
                acc == digits_val(title@.subrange(1, i as int)),
            decreases j - i,
        {
            let c = title.get_char(i);
            if c < '0' || c > '9' {
                proof {
                    assert(inner[i - 1] == title@[i as int]);
                    assert(!all_digits(inner));
                }
                return 0;
            }
            let d: u32 = (c as u32) - 48;
            proof {
                assert(d == digit_val(c));
            }
            if acc > (u32::MAX - d) / 10 {
                proof {
                    let ext = title@.subrange(1, i + 1);
                    assert(ext.drop_last() =~= title@.subrange(1, i as int));
                    assert(ext.last() == c);
                    assert(digits_val(ext) == acc * 10 + d);
                    assert(acc * 10 + d > u32::MAX) by (nonlinear_arith)
                        requires
                            acc > (u32::MAX - d) / 10,
                            d < 10,
                    ;
                    assert(inner.subrange(0, i as int) =~= ext);
                    crate::text::lemma_digits_val_prefix(inner, i as int);
                    assert(digits_val(inner) > u32::MAX);
                }
                return 0;
            }
            proof {
                let ext = title@.subrange(1, i + 1);
                assert(ext.drop_last() =~= title@.subrange(1, i as int));
                assert(ext.last() == c);
                assert(digits_val(ext) == acc * 10 + d);
                assert(acc * 10 + d <= u32::MAX) by (nonlinear_arith)
                    requires
                        acc <= (u32::MAX - d) / 10,
                        d < 10,
                ;
                assert(all_digits(ext)) by {
                    assert forall|k: int| 0 <= k < ext.len() implies is_digit(ext[k]) by {
                        if k < i - 1 {
                            assert(ext[k] == title@.subrange(1, i as int)[k]);
                        } else {
                            assert(ext[k] == c);
                        }
                    }
                }
            }
            acc = acc * 10 + d;
            i += 1;
        }
        proof {
            assert(title@.subrange(1, i as int) =~= inner);
            assert(inner.len() > 0);
            assert(parse_count_spec(title@) == digits_val(inner) as u32);
        }
        acc
    }
}

/// Round-trip law: a title that opens with a parenthesized count `n`
/// parses back to exactly `n`, whatever text follows the closing
/// parenthesis.
pub proof fn lemma_parse_count_round_trip(n: u32, rest: Seq<char>)
    ensures
        parse_count_spec(seq!['('] + dec_str(n as nat) + seq![')'] + rest) == n,
{
    let digits = dec_str(n as nat);
    crate::text::lemma_dec_str_digits(n as nat);
    let t = seq!['('] + digits + seq![')'] + rest;
    let j = 1 + digits.len() as int;
    assert(t[0] == '(');
    assert(t[j] == ')');
    assert forall|k: int| 0 <= k < j implies t[k] != ')' by {
        if k >= 1 {
            assert(t[k] == digits[k - 1]);
            assert(is_digit(digits[k - 1]));
        }
    }
    lemma_first_rparen_is(t, j);
    assert(t.subrange(1, j) =~= digits);
    assert(parse_count_spec(t) == digits_val(digits) as u32);
}

/// Refresh gating: after a refresh at time `now1`, a tick at `now2` no
/// more than the configured interval later is FRESH (no scan is due, so
/// `output` leaves the state untouched), while a tick strictly more than
/// the interval later is STALE and triggers a new scan.
pub proof fn lemma_refresh_gating(d: Discord, now1: u64, now2: u64)
    requires
        d.last_updated == now1,
        now1 <= now2,
    ensures
        now2 - now1 <= d.data_refresh_interval * 1000 ==> !spec_refresh_due(d, now2),
        now2 - now1 > d.data_refresh_interval * 1000 ==> spec_refresh_due(d, now2),
{
}

/// Scan isolation: the scanner's selection is a function of the title
/// list and the selecting widget's own keyword alone, and what it selects
/// always contains that keyword. Two widgets with distinct keywords,
/// however their scans interleave, therefore never observe a title that
/// matched only the other widget's keyword.
pub proof fn lemma_scan_isolation(titles: Seq<Seq<char>>, kw1: Seq<char>, kw2: Seq<char>)
    ensures
        select_title(titles, kw1) is Some ==> contains_seq(select_title(titles, kw1).unwrap(), kw1),
        select_title(titles, kw2) is Some ==> contains_seq(select_title(titles, kw2).unwrap(), kw2),
{
    lemma_select_title(titles, kw1);
    lemma_select_title(titles, kw2);
}

/// Scanner miss: when no open window's title contains the keyword, the
/// scanner selects nothing; the refresh that consumes that result then
/// stores a count of zero (see `output`), whatever count was cached.
pub proof fn lemma_scan_miss(titles: Seq<Seq<char>>, keyword: Seq<char>)
    requires
        forall|i: int| 0 <= i < titles.len() ==> !contains_seq(titles[i], keyword),
    ensures
        select_title(titles, keyword) is None,
{
    lemma_select_title(titles, keyword);
}

} // verus!
