use vstd::prelude::*;

use crate::custom_task::{skip_white, skip_white_exec, trim_end, trim_end_exec};
use crate::text::{chars_of, push_str, string_of_range};

verus! {

/// Characters that end a sentence.
pub open spec fn is_boundary(c: char) -> bool {
    c == '.' || c == '!' || c == '?' || c == '\n'
}

/// One past the last sentence boundary before `i` (zero where there is none).
pub open spec fn sentence_start(s: Seq<char>, i: int) -> int
    decreases i,
{
    if i <= 0 || i > s.len() {
        0
    } else if is_boundary(s[i - 1]) {
        i
    } else {
        sentence_start(s, i - 1)
    }
}

/// One past the first sentence boundary at or after `i` (the end where there is none).
pub open spec fn sentence_end(s: Seq<char>, i: int) -> int
    decreases s.len() - i,
{
    if i < 0 || i >= s.len() {
        s.len() as int
    } else if is_boundary(s[i]) {
        i + 1
    } else {
        sentence_end(s, i + 1)
    }
}

/// `s[lo..hi]` without white space at either end.
pub open spec fn trimmed(s: Seq<char>, lo: int, hi: int) -> Seq<char> {
    let a = skip_white(s.subrange(lo, hi), 0);
    let t = s.subrange(lo, hi);
    t.subrange(a, trim_end(t, a, t.len() as int))
}

/// The sentence around the match `start..end`, trimmed.
pub open spec fn sentence_around(s: Seq<char>, start: int, end: int) -> Seq<char> {
    trimmed(s, sentence_start(s, start), sentence_end(s, end))
}

proof fn lemma_sentence_bounds(s: Seq<char>, start: int, end: int)
    requires
        0 <= start <= end <= s.len(),
    ensures
        0 <= sentence_start(s, start) <= start,
        end <= sentence_end(s, end) <= s.len(),
    decreases start + s.len() - end,
{
    if start > 0 && !is_boundary(s[start - 1]) {
        lemma_sentence_bounds(s, start - 1, end);
    } else if end < s.len() && !is_boundary(s[end]) {
        lemma_sentence_bounds(s, start, end + 1);
    }
}

fn trim_range(c: &Vec<char>, lo: usize, hi: usize) -> (r: String)
    requires
        lo <= hi <= c@.len(),
    ensures
        r@ == trimmed(c@, lo as int, hi as int),
{
    let t = string_of_range(c, lo, hi);
    let tc = chars_of(t.as_str());
    let a = skip_white_exec(&tc, 0);
    let b = trim_end_exec(&tc, a, tc.len());
    string_of_range(&tc, a, b)
}

/// The sentence that holds the text from `start` to `end` (character positions).
pub fn extract_sentence(text: &str, start: usize, end: usize) -> (r: String)
    requires
        start <= end <= text@.len(),
    ensures
        r@ == sentence_around(text@, start as int, end as int),
{
    let c = chars_of(text);
    proof {
        lemma_sentence_bounds(c@, start as int, end as int);
    }
    let mut a = start;
    while a > 0 && !(c[a - 1] == '.' || c[a - 1] == '!' || c[a - 1] == '?' || c[a - 1] == '\n')
        invariant
            a <= start <= c@.len(),
            sentence_start(c@, a as int) == sentence_start(c@, start as int),
        decreases a,
    {
        a = a - 1;
    }
    let mut b = end;
    while b < c.len() && !(c[b] == '.' || c[b] == '!' || c[b] == '?' || c[b] == '\n')
        invariant
            end <= b <= c@.len(),
            sentence_end(c@, b as int) == sentence_end(c@, end as int),
        decreases c.len() - b,
    {
        b = b + 1;
    }
    let hi = if b < c.len() {
        b + 1
    } else {
        c.len()
    };
    let lo = if a == 0 {
        0
    } else {
        a
    };
    trim_range(&c, lo, hi)
}

/// A question the agent put to the user.
#[derive(Debug, Clone)]
pub struct DetectedQuestion {
    pub question: String,
    pub context: String,
    pub options: Vec<String>,
}

/// A piece of an option list, trimmed, kept only when something is left.
pub open spec fn kept_option(g: Seq<char>, lo: int, hi: int) -> Seq<Seq<char>> {
    if trimmed(g, lo, hi).len() > 0 {
        seq![trimmed(g, lo, hi)]
    } else {
        Seq::empty()
    }
}

/// The `/`-separated options of `g` from position `i` on, the current one
/// having begun at `seg`.
pub open spec fn options_from(g: Seq<char>, i: int, seg: int) -> Seq<Seq<char>>
    decreases g.len() - i,
{
    if i >= g.len() {
        kept_option(g, seg, g.len() as int)
    } else if g[i] == '/' {
        kept_option(g, seg, i) + options_from(g, i + 1, i + 1)
    } else {
        options_from(g, i + 1, seg)
    }
}

/// The pattern of a bracketed option list such as `[Y/N]`.
pub open spec fn options_pattern() -> Seq<char> {
    "\\[([^\\]]+)\\]"@
}

/// The answers a question offers: the `/`-separated items of the first
/// bracketed list, trimmed and non-empty; yes and no where there are none.
pub open spec fn options_of(s: Seq<char>) -> Seq<Seq<char>> {
    let listed = match regex_first_match(options_pattern(), s) {
        Some((a, b)) => if a + 1 <= b - 1 {
            options_from(s.subrange(a + 1, b - 1), 0, 0)
        } else {
            Seq::empty()
        },
        None => Seq::empty(),
    };
    if listed.len() > 0 {
        listed
    } else {
        seq!["Yes"@, "No"@]
    }
}

pub open spec fn strings_view(v: Seq<String>) -> Seq<Seq<char>> {
    v.map_values(|s: String| s@)
}

fn push_kept(out: &mut Vec<String>, g: &Vec<char>, lo: usize, hi: usize)
    requires
        lo <= hi <= g@.len(),
    ensures
        strings_view(final(out)@) == strings_view(old(out)@) + kept_option(g@, lo as int, hi as int),
{
    let t = trim_range(g, lo, hi);
    let ghost o = out@;
    if !t.as_str().is_empty() {
        out.push(t);
        assert(strings_view(out@) =~= strings_view(o) + kept_option(g@, lo as int, hi as int));
    } else {
        assert(strings_view(out@) =~= strings_view(o) + kept_option(g@, lo as int, hi as int));
    }
}

/// The answers a question offers, read from the text from the question on.
pub fn extract_options(text: &str) -> (r: Vec<String>)
    ensures
        strings_view(r@) == options_of(text@),
{
    let c = chars_of(text);
    let mut out: Vec<String> = Vec::new();
    match find_pattern("\\[([^\\]]+)\\]", text) {
        Some((a, b)) => {
            if b - a >= 2 {
                let gs = string_of_range(&c, a + 1, b - 1);
                let g = chars_of(gs.as_str());
                let mut k: usize = 0;
                let mut seg: usize = 0;
                while k < g.len()
                    invariant
                        seg <= k <= g@.len(),
                        strings_view(out@) + options_from(g@, k as int, seg as int) == options_from(
                            g@,
                            0,
                            0,
                        ),
                    decreases g.len() - k,
                {
                    if g[k] == '/' {
                        let ghost before = strings_view(out@);
                        push_kept(&mut out, &g, seg, k);
                        proof {
                            assert(strings_view(out@) + options_from(g@, k + 1, k + 1) =~= before + (
                            kept_option(g@, seg as int, k as int) + options_from(g@, k + 1, k + 1)));
                        }
                        k = k + 1;
                        seg = k;
                    } else {
                        k = k + 1;
                    }
                }
                let ghost before = strings_view(out@);
                push_kept(&mut out, &g, seg, g.len());
                assert(strings_view(out@) =~= before + options_from(g@, k as int, seg as int));
            } else {
                assert(strings_view(out@) =~= Seq::<Seq<char>>::empty());
            }
        },
        None => {
            assert(strings_view(out@) =~= Seq::<Seq<char>>::empty());
        },
    }
    if out.len() == 0 {
        let r = vec![String::from_str("Yes"), String::from_str("No")];
        assert(strings_view(r@) =~= seq!["Yes"@, "No"@]);
        return r;
    }
    out
}

/// Where `pattern` first matches in `text`, as `regex` finds it (leftmost,
/// first alternative), in character positions; `None` where nothing matches
/// or the pattern is not a valid expression.
pub uninterp spec fn regex_first_match(pattern: Seq<char>, text: Seq<char>) -> Option<(int, int)>;

/// Relies on `regex::Regex::new` and `Regex::find`: the first match of a
/// pattern, its byte offsets turned into character positions.
#[verifier::external_body]
fn find_pattern(pattern: &str, text: &str) -> (r: Option<(usize, usize)>)
    ensures
        match r {
            Some((a, b)) => regex_first_match(pattern@, text@) == Some((a as int, b as int)) && a <= b
                <= text@.len(),
            None => regex_first_match(pattern@, text@) is None,
        },
{
    let m = regex::Regex::new(pattern).ok()?.find(text)?;
    Some((text[..m.start()].chars().count(), text[..m.end()].chars().count()))
}

/// The phrases that mark a question to the user, tried in this order.
pub open spec fn question_patterns() -> Seq<Seq<char>> {
    seq![
        "(?i)should i (?:proceed|continue)\\??"@,
        "(?i)do you (?:want|approve|confirm)\\??"@,
        "(?i)is (?:this|that) (?:okay|correct|right)\\??"@,
        "(?i)shall i (?:proceed|continue|go ahead)\\??"@,
        "(?i)would you like (?:me to|to)\\??"@,
        "(?i)can i (?:proceed|continue|go ahead)\\??"@,
        "(?i)are you (?:sure|okay with)\\??"@,
        "(?i)please (?:confirm|approve|verify)"@,
        "(?i)\\[y(?:es)?/n(?:o)?\\]"@,
        "(?i)press.*(?:enter|y|n).*to.*(?:continue|proceed|confirm)"@,
    ]
}

fn question_pattern_list() -> (r: Vec<&'static str>)
    ensures
        r@.map_values(|p: &str| p@) == question_patterns(),
{
    let r = vec![
        "(?i)should i (?:proceed|continue)\\??",
        "(?i)do you (?:want|approve|confirm)\\??",
        "(?i)is (?:this|that) (?:okay|correct|right)\\??",
        "(?i)shall i (?:proceed|continue|go ahead)\\??",
        "(?i)would you like (?:me to|to)\\??",
        "(?i)can i (?:proceed|continue|go ahead)\\??",
        "(?i)are you (?:sure|okay with)\\??",
        "(?i)please (?:confirm|approve|verify)",
        "(?i)\\[y(?:es)?/n(?:o)?\\]",
        "(?i)press.*(?:enter|y|n).*to.*(?:continue|proceed|confirm)",
    ];
    assert(r@.map_values(|p: &str| p@) =~= question_patterns());
    r
}

/// The match of the first pattern, from position `i` of `ps` on, that matches `text`.
pub open spec fn first_pattern_match(ps: Seq<Seq<char>>, text: Seq<char>, i: int) -> Option<(int, int)>
    decreases ps.len() - i,
{
    if i < 0 || i >= ps.len() {
        None
    } else {
        match regex_first_match(ps[i], text) {
            Some(m) => Some(m),
            None => first_pattern_match(ps, text, i + 1),
        }
    }
}

/// `q` is the question reported for a match at `a..b` of `buf`.
pub open spec fn reports_question(q: DetectedQuestion, buf: Seq<char>, a: int, b: int) -> bool {
    &&& q.question@ == sentence_around(buf, a, b)
    &&& q.context@ == trimmed(buf, if a >= 200 { a - 200 } else { 0 }, a)
    &&& strings_view(q.options@) == options_of(buf.subrange(a, buf.len() as int))
}

/// Characters of recent response text kept for detection.
pub const MAX_BUFFER_CHARS: usize = 4096;

/// The last `max` characters of `s`.
pub open spec fn keep_last(s: Seq<char>, max: nat) -> Seq<char> {
    if s.len() > max {
        s.subrange(s.len() - max, s.len() as int)
    } else {
        s
    }
}

/// Collects streamed response text and reports a question once a pattern
/// has matched in it.
pub struct QuestionDetector {
    buffer: String,
}

impl QuestionDetector {
    pub closed spec fn spec_buffer(&self) -> Seq<char> {
        self.buffer@
    }

    pub fn new() -> (r: Self)
        ensures
            r.spec_buffer().len() == 0,
    {
        QuestionDetector { buffer: String::new() }
    }

    pub fn buffer(&self) -> (r: &String)
        ensures
            r@ == self.spec_buffer(),
    {
        &self.buffer
    }

    /// Append text, keeping the most recent 4096 characters.
    pub fn push_text(&mut self, text: &str)
        ensures
            final(self).spec_buffer() == keep_last(old(self).spec_buffer() + text@, 4096),
    {
        push_str(&mut self.buffer, text);
        let c = chars_of(self.buffer.as_str());
        if c.len() > MAX_BUFFER_CHARS {
            self.buffer = string_of_range(&c, c.len() - MAX_BUFFER_CHARS, c.len());
        }
    }

    /// Report the question around a pattern match at `start..end` (character
    /// positions in the buffer): its sentence, up to two hundred characters
    /// before it, and its options. The buffer is then emptied.
    pub fn report_match(&mut self, start: usize, end: usize) -> (r: DetectedQuestion)
        requires
            start <= end <= old(self).spec_buffer().len(),
        ensures
            r.question@ == sentence_around(old(self).spec_buffer(), start as int, end as int),
            r.context@ == trimmed(
                old(self).spec_buffer(),
                if start >= 200 {
                    start - 200
                } else {
                    0
                },
                start as int,
            ),
            strings_view(r.options@) == options_of(
                old(self).spec_buffer().subrange(start as int, old(self).spec_buffer().len() as int),
            ),
            final(self).spec_buffer().len() == 0,
    {
        let question = extract_sentence(self.buffer.as_str(), start, end);
        let c = chars_of(self.buffer.as_str());
        let lo = if start >= 200 {
            start - 200
        } else {
            0
        };
        let context = trim_range(&c, lo, start);
        let rest = string_of_range(&c, start, c.len());
        let options = extract_options(rest.as_str());
        self.buffer = String::new();
        DetectedQuestion { question, context, options }
    }

    /// Look for a question in the collected text: the first pattern that
    /// matches decides, and the question around its match is reported and
    /// the text forgotten. Without a match nothing changes.
    pub fn detect(&mut self) -> (r: Option<DetectedQuestion>)
        ensures
            match first_pattern_match(question_patterns(), old(self).spec_buffer(), 0) {
                Some((a, b)) => r is Some && reports_question(r->0, old(self).spec_buffer(), a, b)
                    && final(self).spec_buffer().len() == 0,
                None => r is None && final(self).spec_buffer() == old(self).spec_buffer(),
            },
    {
        let patterns = question_pattern_list();
        let ghost ps = patterns@.map_values(|p: &str| p@);
        let mut i: usize = 0;
        while i < patterns.len()
            invariant
                i <= patterns@.len(),
                ps == patterns@.map_values(|p: &str| p@),
                ps == question_patterns(),
                first_pattern_match(ps, self.spec_buffer(), 0) == first_pattern_match(
                    ps,
                    self.spec_buffer(),
                    i as int,
                ),
                self.spec_buffer() == old(self).spec_buffer(),
            decreases patterns.len() - i,
        {
            assert(ps[i as int] == patterns@[i as int]@);
            match find_pattern(patterns[i], self.buffer.as_str()) {
                Some((a, b)) => {
                    return Some(self.report_match(a, b));
                },
                None => {},
            }
            i = i + 1;
        }
        None
    }

    /// Forget the collected text.
    pub fn reset(&mut self)
        ensures
            final(self).spec_buffer().len() == 0,
    {
        self.buffer = String::new();
    }
}

} // verus!
