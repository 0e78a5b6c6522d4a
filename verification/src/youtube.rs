use vstd::prelude::*;
use vstd::string::{StrSliceExecFns, StringExecFns};

verus! {

/// Credentials for the video metadata provider; the outbound calls live
/// with the transport layer.
#[derive(Clone, Debug)]
pub struct YouTubeApi {
    pub token: String,
}

/// One video record returned by the metadata provider.
pub struct VideoResource {
    pub id: String,
    pub snippet: VideoResourceSnippet,
    pub content_details: VideoResourceContentDetails,
}

/// The descriptive part of a video record. Thumbnails are keyed by
/// their size class.
pub struct VideoResourceSnippet {
    pub title: String,
    pub thumbnails: Vec<(String, VideoThumbnail)>,
    pub channel_title: String,
}

pub struct VideoThumbnail {
    pub url: String,
}

/// The technical part of a video record; the duration stays in its
/// provider form here and is interpreted at the transport layer.
pub struct VideoResourceContentDetails {
    pub duration: String,
}

/// One search hit.
pub struct SearchResource {
    pub id: SearchResourceId,
}

pub struct SearchResourceId {
    pub video_id: String,
}

/// A free-text track search request.
pub struct Query {
    pub q: String,
}

/// The title with every occurrence of the topic-channel marker removed,
/// scanning left to right.
pub open spec fn strip_topic(cs: Seq<char>) -> Seq<char>
    decreases cs.len(),
{
    if cs.len() >= 7 && cs.subrange(0, 7) == "- Topic"@ {
        strip_topic(cs.skip(7))
    } else if cs.len() == 0 {
        Seq::<char>::empty()
    } else {
        seq![cs[0]] + strip_topic(cs.drop_first())
    }
}

/// The url of the first entry under the given size class, if any.
pub open spec fn thumb_lookup(ths: Seq<(String, VideoThumbnail)>, key: Seq<char>) -> Option<
    Seq<char>,
>
    decreases ths.len(),
{
    if ths.len() == 0 {
        None
    } else if ths[0].0@ == key {
        Some(ths[0].1.url@)
    } else {
        thumb_lookup(ths.drop_first(), key)
    }
}

/// The best thumbnail's url: the largest size class present, from
/// maxres down to default.
pub open spec fn spec_best_thumbnail(ths: Seq<(String, VideoThumbnail)>) -> Option<Seq<char>> {
    match thumb_lookup(ths, "maxres"@) {
        Some(u) => Some(u),
        None => match thumb_lookup(ths, "standard"@) {
            Some(u) => Some(u),
            None => match thumb_lookup(ths, "high"@) {
                Some(u) => Some(u),
                None => match thumb_lookup(ths, "medium"@) {
                    Some(u) => Some(u),
                    None => thumb_lookup(ths, "default"@),
                },
            },
        },
    }
}

fn lookup_thumb(ths: &Vec<(String, VideoThumbnail)>, key: &str) -> (r: Option<String>)
    ensures
        match r {
            Some(u) => thumb_lookup(ths@, key@) == Some(u@),
            None => thumb_lookup(ths@, key@) is None,
        },
{
    let n = ths.len();
    let mut i: usize = 0;
    proof {
        assert(ths@.skip(0) =~= ths@);
    }
    #[verifier::loop_isolation(false)]
    while i < n
        invariant
            i <= n,
            thumb_lookup(ths@, key@) == thumb_lookup(ths@.skip(i as int), key@),
        decreases n - i,
    {
        if ths[i].0.eq(&String::from_str(key)) {
            proof {
                assert(ths@.skip(i as int)[0] == ths@[i as int]);
            }
            return Some(ths[i].1.url.clone());
        }
        i += 1;
        proof {
            assert(ths@.skip(i - 1).drop_first() =~= ths@.skip(i as int));
            assert(ths@.skip(i - 1)[0] == ths@[i - 1]);
        }
    }
    proof {
        assert(ths@.skip(n as int) =~= Seq::<(String, VideoThumbnail)>::empty());
    }
    None
}

impl VideoResourceSnippet {
    /// The display title: the provider's title with the topic-channel
    /// marker removed.
    pub fn get_title(&self) -> (r: String)
        ensures
            r@ == strip_topic(self.title@),
    {
        proof {
            reveal_strlit("- Topic");
        }
        let s = self.title.as_str();
        let n = s.unicode_len();
        let mut out = String::new();
        let mut i: usize = 0;
        proof {
            assert(s@.skip(0) =~= s@);
            assert(Seq::<char>::empty() + strip_topic(s@) =~= strip_topic(s@));
        }
        #[verifier::loop_isolation(false)]
        while i < n
            invariant
                n == s@.len(),
                i <= n,
                strip_topic(s@) == out@ + strip_topic(s@.skip(i as int)),
            decreases n - i,
        {
            let is_pat = n - i >= 7 && s.get_char(i) == '-' && s.get_char(i + 1) == ' '
                && s.get_char(i + 2) == 'T' && s.get_char(i + 3) == 'o' && s.get_char(i + 4) == 'p'
                && s.get_char(i + 5) == 'i' && s.get_char(i + 6) == 'c';
            let ghost tail = s@.skip(i as int);
            if is_pat {
                proof {
                    reveal_strlit("- Topic");
                    assert forall|k: int| 0 <= k < 7 implies tail.subrange(0, 7)[k] == "- Topic"@[k]
                        by {
                        assert(tail.subrange(0, 7)[k] == s@[i + k]);
                    }
                    assert(tail.subrange(0, 7) =~= "- Topic"@);
                    assert(tail.skip(7) =~= s@.skip(i + 7));
                    assert(strip_topic(tail) == strip_topic(s@.skip(i + 7)));
                }
                i += 7;
            } else {
                proof {
                    reveal_strlit("- Topic");
                    if tail.len() >= 7 && tail.subrange(0, 7) == "- Topic"@ {
                        let pat = "- Topic"@;
                        assert(pat =~= seq!['-', ' ', 'T', 'o', 'p', 'i', 'c']);
                        assert forall|k: int| 0 <= k < 7 implies s@[i + k] == pat[k] by {
                            assert(tail.subrange(0, 7)[k] == s@[i + k]);
                        }
                        assert(s@[i + 0] == '-');
                        assert(s@[i + 1] == ' ');
                        assert(s@[i + 2] == 'T');
                        assert(s@[i + 3] == 'o');
                        assert(s@[i + 4] == 'p');
                        assert(s@[i + 5] == 'i');
                        assert(s@[i + 6] == 'c');
                        assert(s@[i as int] == '-');
                        assert(false);
                    }
                    assert(tail[0] == s@[i as int]);
                    assert(tail.drop_first() =~= s@.skip(i + 1));
                    assert(strip_topic(tail) == seq![s@[i as int]] + strip_topic(s@.skip(i + 1)));
                }
                let ghost out0 = out@;
                out.append(s.substring_char(i, i + 1));
                proof {
                    assert(s@.subrange(i as int, i + 1) =~= seq![s@[i as int]]);
                    assert((out0 + seq![s@[i as int]]) + strip_topic(s@.skip(i + 1)) =~= out0 + (
                    seq![s@[i as int]] + strip_topic(s@.skip(i + 1))));
                }
                i += 1;
            }
        }
        proof {
            assert(s@.skip(n as int) =~= Seq::<char>::empty());
            assert(strip_topic(Seq::<char>::empty()) =~= Seq::<char>::empty());
            assert(out@ + Seq::<char>::empty() =~= out@);
        }
        out
    }

    /// The url of the largest thumbnail present. The provider always
    /// returns at least one of the five size classes, and callers rely
    /// on that.
    pub fn get_best_thumbnail(&self) -> (r: String)
        requires
            spec_best_thumbnail(self.thumbnails@) is Some,
        ensures
            Some(r@) == spec_best_thumbnail(self.thumbnails@),
    {
        if let Some(u) = lookup_thumb(&self.thumbnails, "maxres") {
            return u;
        }
        if let Some(u) = lookup_thumb(&self.thumbnails, "standard") {
            return u;
        }
        if let Some(u) = lookup_thumb(&self.thumbnails, "high") {
            return u;
        }
        if let Some(u) = lookup_thumb(&self.thumbnails, "medium") {
            return u;
        }
        if let Some(u) = lookup_thumb(&self.thumbnails, "default") {
            return u;
        }
        proof {
            assert(false);
        }
        vstd::pervasive::unreached()
    }
}


/// A decimal digit of a duration component.
pub open spec fn is_dur_digit(c: char) -> bool {
    0x30 <= c as u32 <= 0x39
}

/// Where the digit run starting at `i` ends.
pub open spec fn dur_run_end(s: Seq<char>, i: int) -> int
    decreases s.len() - i,
    when 0 <= i <= s.len()
{
    if i < s.len() && is_dur_digit(s[i]) {
        dur_run_end(s, i + 1)
    } else {
        i
    }
}

/// The value of the digit run starting at `i`, folded onto `acc`.
pub open spec fn dur_val(s: Seq<char>, i: int, acc: nat) -> nat
    decreases s.len() - i,
    when 0 <= i <= s.len()
{
    if i < s.len() && is_dur_digit(s[i]) {
        dur_val(s, i + 1, acc * 10 + (s[i] as u32 - 0x30) as nat)
    } else {
        acc
    }
}

/// A duration component at `i`: a non-empty digit run directly followed
/// by its designator.
pub open spec fn dur_component(s: Seq<char>, i: int, des: char) -> Option<(nat, int)> {
    let j = dur_run_end(s, i);
    if j > i && j < s.len() && s[j] == des {
        Some((dur_val(s, i, 0), j + 1))
    } else {
        None
    }
}

/// The component where present, zero and no movement where absent.
pub open spec fn dur_opt(s: Seq<char>, i: int, des: char) -> (nat, int) {
    match dur_component(s, i, des) {
        Some((n, j)) => (n, j),
        None => (0, i),
    }
}

/// Whole seconds of a provider duration: `P`, optional week and day
/// components, then optionally `T` with hour, minute and second
/// components; at least one component must be present and nothing may
/// trail. The calendar-dependent year and month designators have no
/// fixed length in seconds and are not accepted.
pub open spec fn duration_seconds(s: Seq<char>) -> Option<int> {
    if s.len() == 0 || s[0] != 'P' {
        None
    } else {
        let (w, i1) = dur_opt(s, 1, 'W');
        let (d, i2) = dur_opt(s, i1, 'D');
        if i2 < s.len() && s[i2] == 'T' {
            let (h, i3) = dur_opt(s, i2 + 1, 'H');
            let (m, i4) = dur_opt(s, i3, 'M');
            let (sec, i5) = dur_opt(s, i4, 'S');
            if i5 == s.len() && i5 > i2 + 1 {
                Some((w * 604800 + d * 86400 + h * 3600 + m * 60 + sec) as int)
            } else {
                None
            }
        } else {
            if i2 == s.len() && i2 > 1 {
                Some((w * 604800 + d * 86400) as int)
            } else {
                None
            }
        }
    }
}

/// A digit run ends within the text, holds digits only, and stops at
/// the first non-digit.
proof fn lemma_dur_run_end(s: Seq<char>, i: int)
    requires
        0 <= i <= s.len(),
    ensures
        i <= dur_run_end(s, i) <= s.len(),
        forall|k: int| i <= k < dur_run_end(s, i) ==> is_dur_digit(#[trigger] s[k]),
        dur_run_end(s, i) == s.len() || !is_dur_digit(s[dur_run_end(s, i)]),
    decreases s.len() - i,
{
    if i < s.len() && is_dur_digit(s[i]) {
        lemma_dur_run_end(s, i + 1);
    }
}

/// A digit fold never falls below the accumulator it started from.
proof fn lemma_dur_val_lower(s: Seq<char>, i: int, acc: nat)
    requires
        0 <= i <= s.len(),
    ensures
        dur_val(s, i, acc) >= acc,
    decreases s.len() - i,
{
    if i < s.len() && is_dur_digit(s[i]) {
        let acc2 = acc * 10 + (s[i] as u32 - 0x30) as nat;
        assert(acc2 >= acc) by (nonlinear_arith)
            requires
                acc2 == acc * 10 + (s[i] as u32 - 0x30) as nat,
        ;
        lemma_dur_val_lower(s, i + 1, acc2);
    }
}

/// Whether the character at `j` is a decimal digit.
fn char_digit_at(s: &str, j: usize) -> (r: bool)
    requires
        j < s@.len(),
    ensures
        r == is_dur_digit(s@[j as int]),
{
    let u = s.get_char(j) as u32;
    0x30 <= u && u <= 0x39
}

/// Reads an optional duration component at `i`; fails only where the
/// component is present with a value beyond 64 bits.
fn parse_dur_component(s: &str, i: usize, des: char) -> (r: Option<(u64, usize)>)
    requires
        i <= s@.len(),
    ensures
        match r {
            Some((v, j)) => dur_opt(s@, i as int, des) == ((v as nat, j as int)) && i <= j
                <= s@.len(),
            None => match dur_component(s@, i as int, des) {
                Some((n, j)) => n > u64::MAX,
                None => false,
            },
        },
{
    let n = s.unicode_len();
    let mut j = i;
    #[verifier::loop_isolation(false)]
    while j < n && char_digit_at(s, j)
        invariant
            i <= j <= n,
            dur_run_end(s@, i as int) == dur_run_end(s@, j as int),
        decreases n - j,
    {
        j += 1;
    }
    proof {
        assert(dur_run_end(s@, j as int) == j);
        lemma_dur_run_end(s@, i as int);
    }
    if !(j > i && j < n && s.get_char(j) == des) {
        return Some((0, i));
    }
    let mut p = i;
    let mut acc: u64 = 0;
    #[verifier::loop_isolation(false)]
    while p < j
        invariant
            i <= p <= j,
            dur_val(s@, i as int, 0) == dur_val(s@, p as int, acc as nat),
        decreases j - p,
    {
        let c = s.get_char(p);
        let d = (c as u32) - 0x30;
        if acc > (u64::MAX - (d as u64)) / 10 {
            proof {
                let a2 = (acc as nat) * 10 + d as nat;
                assert(a2 > u64::MAX) by (nonlinear_arith)
                    requires
                        acc > (u64::MAX - (d as u64)) / 10,
                        d < 10,
                        a2 == (acc as nat) * 10 + d as nat,
                ;
                lemma_dur_val_lower(s@, p + 1, a2);
            }
            return None;
        }
        acc = acc * 10 + (d as u64);
        p += 1;
    }
    proof {
        assert(dur_val(s@, j as int, acc as nat) == acc as nat);
    }
    Some((acc, j + 1))
}

impl VideoResourceContentDetails {
    /// The provider duration read as whole seconds, or nothing where it
    /// does not fit the accepted grammar or exceeds the second count a
    /// signed 64-bit integer can hold.
    pub fn duration(&self) -> (r: Option<i64>)
        ensures
            match r {
                Some(v) => duration_seconds(self.duration@) == Some(v as int),
                None => match duration_seconds(self.duration@) {
                    Some(v) => v > i64::MAX,
                    None => true,
                },
            },
    {
        let s = self.duration.as_str();
        let ghost sv = self.duration@;
        let n = s.unicode_len();
        if n == 0 || s.get_char(0) != 'P' {
            return None;
        }
        let (w, i1) = match parse_dur_component(s, 1, 'W') {
            Some(p) => p,
            None => {
                proof {
                    let wv = dur_opt(sv, 1, 'W').0;
                    if let Some(v) = duration_seconds(sv) {
                        assert(wv * 604800 >= wv) by (nonlinear_arith);
                        assert(v >= wv * 604800);
                    }
                }
                return None;
            },
        };
        let (d, i2) = match parse_dur_component(s, i1, 'D') {
            Some(p) => p,
            None => {
                proof {
                    let dv = dur_opt(sv, i1 as int, 'D').0;
                    if let Some(v) = duration_seconds(sv) {
                        assert(dv * 86400 >= dv) by (nonlinear_arith);
                        assert(v >= dv * 86400);
                    }
                }
                return None;
            },
        };
        if i2 < n && s.get_char(i2) == 'T' {
            let (h, i3) = match parse_dur_component(s, i2 + 1, 'H') {
                Some(p) => p,
                None => {
                    proof {
                        let hv = dur_opt(sv, i2 + 1, 'H').0;
                        if let Some(v) = duration_seconds(sv) {
                            assert(hv * 3600 >= hv) by (nonlinear_arith);
                            assert(v >= hv * 3600);
                        }
                    }
                    return None;
                },
            };
            let (m, i4) = match parse_dur_component(s, i3, 'M') {
                Some(p) => p,
                None => {
                    proof {
                        let mv = dur_opt(sv, i3 as int, 'M').0;
                        if let Some(v) = duration_seconds(sv) {
                            assert(mv * 60 >= mv) by (nonlinear_arith);
                            assert(v >= mv * 60);
                        }
                    }
                    return None;
                },
            };
            let (sec, i5) = match parse_dur_component(s, i4, 'S') {
                Some(p) => p,
                None => {
                    proof {
                        let secv = dur_opt(sv, i4 as int, 'S').0;
                        if let Some(v) = duration_seconds(sv) {
                            assert(v >= secv);
                        }
                    }
                    return None;
                },
            };
            if !(i5 == n && i5 > i2 + 1) {
                return None;
            }
            let total: u128 = (w as u128) * 604800 + (d as u128) * 86400 + (h as u128) * 3600 + (
            m as u128) * 60 + (sec as u128);
            if total > (i64::MAX as u128) {
                return None;
            }
            proof {
                assert(duration_seconds(sv) == Some(total as int));
            }
            Some(total as i64)
        } else {
            if !(i2 == n && i2 > 1) {
                return None;
            }
            let total: u128 = (w as u128) * 604800 + (d as u128) * 86400;
            if total > (i64::MAX as u128) {
                return None;
            }
            proof {
                assert(duration_seconds(sv) == Some(total as int));
            }
            Some(total as i64)
        }
    }
}

} // verus!
