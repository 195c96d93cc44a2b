use vstd::prelude::*;

use crate::feed::Category;
use crate::feed::Feed;
use crate::feed::FeedV;
use crate::feed::Source;
use crate::feed::lemma_category_token_round_trip;
use crate::feed::lemma_source_token_round_trip;
use crate::feed::spec_category_from_token;
use crate::feed::spec_category_token;
use crate::feed::spec_source_from_token;
use crate::feed::spec_source_token;

verus! {

// ---------------------------------------------------------------------
// The configuration text format. A feed list is printed as
//
//     [("<id>" <source> <category> <url>)...]
//
// with `<id>` and an explicit URL quoted, `<source>` and `<category>` as
// their lowercase tokens, and `-` standing for an absent URL. The parser
// accepts exactly the printed form, so that a stored configuration loads
// back losslessly.
// ---------------------------------------------------------------------
/// A string between double quotes.
pub open spec fn spec_quote(s: Seq<char>) -> Seq<char> {
    seq!['"'] + s + seq!['"']
}

/// The printed form of one feed.
pub open spec fn spec_print_feed(f: FeedV) -> Seq<char> {
    seq!['('] + spec_quote(f.id) + seq![' '] + spec_source_token(f.source) + seq![' ']
        + spec_category_token(f.category) + seq![' '] + (match f.url {
        Some(u) => spec_quote(u),
        None => seq!['-'],
    }) + seq![')']
}

/// The printed forms of a feed list, in order.
pub open spec fn spec_print_feeds(feeds: Seq<FeedV>) -> Seq<char>
    decreases feeds.len(),
{
    if feeds.len() == 0 {
        Seq::<char>::empty()
    } else {
        spec_print_feed(feeds[0]) + spec_print_feeds(feeds.skip(1))
    }
}

/// The printed form of a whole configuration.
pub open spec fn spec_print_config(feeds: Seq<FeedV>) -> Seq<char> {
    seq!['['] + spec_print_feeds(feeds) + seq![']']
}

/// The text before the first occurrence of `c`, and the text after it;
/// nothing when `c` does not occur.
pub open spec fn spec_split_at(t: Seq<char>, c: char) -> Option<(Seq<char>, Seq<char>)>
    decreases t.len(),
{
    if t.len() == 0 {
        None
    } else if t[0] == c {
        Some((Seq::<char>::empty(), t.skip(1)))
    } else {
        match spec_split_at(t.skip(1), c) {
            Some(p) => Some((seq![t[0]] + p.0, p.1)),
            None => None,
        }
    }
}

/// The remainder after one expected leading character.
pub open spec fn spec_expect(t: Seq<char>, c: char) -> Option<Seq<char>> {
    if t.len() > 0 && t[0] == c {
        Some(t.skip(1))
    } else {
        None
    }
}

/// A quoted string at the head of the text: its body and the remainder.
pub open spec fn spec_parse_quoted(t: Seq<char>) -> Option<(Seq<char>, Seq<char>)> {
    if t.len() > 0 && t[0] == '"' {
        spec_split_at(t.skip(1), '"')
    } else {
        None
    }
}

/// An optional URL at the head of the text: `-` stands for absence, a
/// quoted string for presence.
pub open spec fn spec_parse_urlopt(t: Seq<char>) -> Option<(Option<Seq<char>>, Seq<char>)> {
    if t.len() > 0 && t[0] == '-' {
        Some((None, t.skip(1)))
    } else {
        match spec_parse_quoted(t) {
            Some(p) => Some((Some(p.0), p.1)),
            None => None,
        }
    }
}

/// One printed feed at the head of the text: the feed and the remainder.
pub open spec fn spec_parse_feed(t: Seq<char>) -> Option<(FeedV, Seq<char>)> {
    if t.len() == 0 || t[0] != '(' {
        None
    } else {
        match spec_parse_quoted(t.skip(1)) {
            None => None,
            Some((id, t1)) => match spec_expect(t1, ' ') {
                None => None,
                Some(t2) => match spec_split_at(t2, ' ') {
                    None => None,
                    Some((st, t3)) => match spec_source_from_token(st) {
                        None => None,
                        Some(source) => match spec_split_at(t3, ' ') {
                            None => None,
                            Some((ct, t4)) => match spec_category_from_token(ct) {
                                None => None,
                                Some(category) => match spec_parse_urlopt(t4) {
                                    None => None,
                                    Some((url, t5)) => match spec_expect(t5, ')') {
                                        None => None,
                                        Some(t6) => Some(
                                            (FeedV { id, source, category, url }, t6),
                                        ),
                                    },
                                },
                            },
                        },
                    },
                },
            },
        }
    }
}

/// The printed feeds at the head of the text up to a closing `]`: the
/// feed list and the remainder.
pub open spec fn spec_parse_feeds(t: Seq<char>) -> Option<(Seq<FeedV>, Seq<char>)>
    decreases t.len(),
{
    if t.len() == 0 {
        None
    } else if t[0] == ']' {
        Some((Seq::<FeedV>::empty(), t.skip(1)))
    } else {
        match spec_parse_feed(t) {
            None => None,
            Some((f, rest)) => {
                if rest.len() < t.len() {
                    match spec_parse_feeds(rest) {
                        None => None,
                        Some((fs, rest2)) => Some((seq![f] + fs, rest2)),
                    }
                } else {
                    None
                }
            },
        }
    }
}

/// The feed list that a whole configuration text denotes, or nothing
/// when the text is not exactly a printed configuration.
pub open spec fn spec_parse_config(t: Seq<char>) -> Option<Seq<FeedV>> {
    if t.len() > 0 && t[0] == '[' {
        match spec_parse_feeds(t.skip(1)) {
            Some((fs, rest)) => if rest.len() == 0 {
                Some(fs)
            } else {
                None
            },
            None => None,
        }
    } else {
        None
    }
}

/// A feed whose quoted parts hold no double-quote character, so that its
/// printed form parses back.
pub open spec fn spec_feed_config_safe(f: FeedV) -> bool {
    (forall|i: int| 0 <= i < f.id.len() ==> f.id[i] != '"') && (match f.url {
        Some(u) => forall|i: int| 0 <= i < u.len() ==> u[i] != '"',
        None => true,
    })
}

// ---------------------------------------------------------------------
// The round trip: parsing a printed configuration yields the feeds that
// were printed.
// ---------------------------------------------------------------------
/// Splitting right after text free of `c` finds exactly that text.
proof fn lemma_split_at_print(s: Seq<char>, c: char, rest: Seq<char>)
    requires
        forall|i: int| 0 <= i < s.len() ==> s[i] != c,
    ensures
        spec_split_at(s + seq![c] + rest, c) == Some((s, rest)),
    decreases s.len(),
{
    let t = s + seq![c] + rest;
    if s.len() == 0 {
        assert(t[0] == c);
        assert(t.skip(1) =~= rest);
        assert(s =~= Seq::<char>::empty());
    } else {
        assert(t[0] == s[0]);
        assert(t.skip(1) =~= s.skip(1) + seq![c] + rest);
        assert(forall|i: int| 0 <= i < s.skip(1).len() ==> s.skip(1)[i] != c);
        lemma_split_at_print(s.skip(1), c, rest);
        assert(seq![t[0]] + s.skip(1) =~= s);
    }
}

/// Parsing a printed quoted string free of quotes finds exactly its body.
proof fn lemma_parse_quoted_print(s: Seq<char>, rest: Seq<char>)
    requires
        forall|i: int| 0 <= i < s.len() ==> s[i] != '"',
    ensures
        spec_parse_quoted(spec_quote(s) + rest) == Some((s, rest)),
{
    let t = spec_quote(s) + rest;
    assert(t[0] == '"');
    assert(t.skip(1) =~= s + seq!['"'] + rest);
    lemma_split_at_print(s, '"', rest);
}

/// The lowercase source tokens hold no space.
proof fn lemma_source_token_no_space(s: Source)
    ensures
        forall|i: int| 0 <= i < spec_source_token(s).len() ==> spec_source_token(s)[i] != ' ',
{
    reveal_strlit("rss");
    reveal_strlit("youtube");
}

/// The lowercase category tokens hold no space.
proof fn lemma_category_token_no_space(c: Category)
    ensures
        forall|i: int| 0 <= i < spec_category_token(c).len() ==> spec_category_token(c)[i] != ' ',
{
    reveal_strlit("entertainment");
    reveal_strlit("music");
    reveal_strlit("technology");
}

/// Parsing a printed feed finds exactly that feed.
proof fn lemma_parse_feed_print(f: FeedV, rest: Seq<char>)
    requires
        spec_feed_config_safe(f),
    ensures
        spec_parse_feed(spec_print_feed(f) + rest) == Some((f, rest)),
{
    let st = spec_source_token(f.source);
    let ct = spec_category_token(f.category);
    let u = match f.url {
        Some(u) => spec_quote(u),
        None => seq!['-'],
    };
    let t = spec_print_feed(f) + rest;
    assert(t[0] == '(');
    let r1 = seq![' '] + st + seq![' '] + ct + seq![' '] + u + seq![')'] + rest;
    assert(t.skip(1) =~= spec_quote(f.id) + r1);
    lemma_parse_quoted_print(f.id, r1);
    let r2 = st + seq![' '] + ct + seq![' '] + u + seq![')'] + rest;
    assert(r1[0] == ' ');
    assert(r1.skip(1) =~= r2);
    let r3 = ct + seq![' '] + u + seq![')'] + rest;
    assert(r2 =~= st + seq![' '] + r3);
    lemma_source_token_no_space(f.source);
    lemma_split_at_print(st, ' ', r3);
    lemma_source_token_round_trip(f.source);
    let r4 = u + seq![')'] + rest;
    assert(r3 =~= ct + seq![' '] + r4);
    lemma_category_token_no_space(f.category);
    lemma_split_at_print(ct, ' ', r4);
    lemma_category_token_round_trip(f.category);
    let r5 = seq![')'] + rest;
    match f.url {
        Some(url) => {
            assert(r4 =~= spec_quote(url) + r5);
            assert(r4[0] == '"');
            lemma_parse_quoted_print(url, r5);
            assert(spec_parse_urlopt(r4) == Some((Some(url), r5)));
        },
        None => {
            assert(r4[0] == '-');
            assert(r4.skip(1) =~= r5);
            assert(spec_parse_urlopt(r4) == Some((None::<Seq<char>>, r5)));
        },
    }
    assert(r5[0] == ')');
    assert(r5.skip(1) =~= rest);
}

/// A printed feed is never empty and never starts with `]`.
proof fn lemma_print_feed_shape(f: FeedV)
    ensures
        spec_print_feed(f).len() > 0,
        spec_print_feed(f)[0] == '(',
{
    assert(spec_print_feed(f)[0] == '(');
}

/// Parsing printed feeds followed by `]` finds exactly those feeds.
proof fn lemma_parse_feeds_print(feeds: Seq<FeedV>, rest: Seq<char>)
    requires
        forall|k: int| 0 <= k < feeds.len() ==> spec_feed_config_safe(#[trigger] feeds[k]),
    ensures
        spec_parse_feeds(spec_print_feeds(feeds) + seq![']'] + rest) == Some((feeds, rest)),
    decreases feeds.len(),
{
    let t = spec_print_feeds(feeds) + seq![']'] + rest;
    if feeds.len() == 0 {
        assert(t =~= seq![']'] + rest);
        assert(t[0] == ']');
        assert(t.skip(1) =~= rest);
        assert(feeds =~= Seq::<FeedV>::empty());
    } else {
        let f = feeds[0];
        let tail = spec_print_feeds(feeds.skip(1)) + seq![']'] + rest;
        assert(t =~= spec_print_feed(f) + tail);
        lemma_print_feed_shape(f);
        assert(t[0] == '(');
        assert(spec_feed_config_safe(f));
        lemma_parse_feed_print(f, tail);
        assert(forall|k: int|
            0 <= k < feeds.skip(1).len() ==> spec_feed_config_safe(#[trigger] feeds.skip(1)[k]));
        lemma_parse_feeds_print(feeds.skip(1), rest);
        assert(tail.len() < t.len());
        assert(seq![f] + feeds.skip(1) =~= feeds);
    }
}

/// Lossless configuration round trip: parsing a printed feed list yields
/// the same list, field for field, provided no identifier or explicit
/// URL holds a double-quote character.
pub proof fn lemma_config_round_trip(feeds: Seq<FeedV>)
    requires
        forall|k: int| 0 <= k < feeds.len() ==> spec_feed_config_safe(#[trigger] feeds[k]),
    ensures
        spec_parse_config(spec_print_config(feeds)) == Some(feeds),
{
    let t = spec_print_config(feeds);
    assert(t[0] == '[');
    assert(t.skip(1) =~= spec_print_feeds(feeds) + seq![']'] + Seq::<char>::empty());
    lemma_parse_feeds_print(feeds, Seq::<char>::empty());
}

// ---------------------------------------------------------------------
// The configuration aggregate and the executable codec.
// ---------------------------------------------------------------------
/// The persisted root configuration aggregate: the ordered feed list.
/// Loaded once at process start, mutated in memory, saved at process
/// end.
pub struct Mim {
    pub feeds: Vec<Feed>,
}

impl View for Mim {
    type V = Seq<FeedV>;

    open spec fn view(&self) -> Seq<FeedV> {
        self.feeds.deep_view()
    }
}

impl Default for Mim {
    /// A configuration with no feeds, as a missing config file denotes.
    fn default() -> (r: Mim)
        ensures
            r@ == Seq::<FeedV>::empty(),
    {
        let r = Mim { feeds: Vec::new() };
        proof {
            assert(r@ =~= Seq::<FeedV>::empty());
        }
        r
    }
}

/// Printing one more feed appends its printed form.
proof fn lemma_print_feeds_push(feeds: Seq<FeedV>, f: FeedV)
    ensures
        spec_print_feeds(feeds.push(f)) == spec_print_feeds(feeds) + spec_print_feed(f),
    decreases feeds.len(),
{
    if feeds.len() == 0 {
        assert(feeds.push(f)[0] == f);
        assert(feeds.push(f).skip(1) =~= Seq::<FeedV>::empty());
        assert(spec_print_feed(f) + spec_print_feeds(Seq::<FeedV>::empty()) =~= spec_print_feed(
            f,
        ));
        assert(spec_print_feeds(feeds) + spec_print_feed(f) =~= spec_print_feed(f));
    } else {
        assert(feeds.push(f)[0] == feeds[0]);
        assert(feeds.push(f).skip(1) =~= feeds.skip(1).push(f));
        lemma_print_feeds_push(feeds.skip(1), f);
        assert(spec_print_feed(feeds[0]) + (spec_print_feeds(feeds.skip(1)) + spec_print_feed(f))
            =~= (spec_print_feed(feeds[0]) + spec_print_feeds(feeds.skip(1))) + spec_print_feed(
            f,
        ));
    }
}

/// Appends a string between double quotes.
fn append_quoted(out: &mut String, s: &str)
    ensures
        final(out)@ == old(out)@ + spec_quote(s@),
{
    out.append("\"");
    out.append(s);
    out.append("\"");
    proof {
        reveal_strlit("\"");
        assert("\""@ =~= seq!['"']);
        assert(final(out)@ =~= old(out)@ + spec_quote(s@));
    }
}

/// Appends the printed form of one feed.
fn append_feed(out: &mut String, f: &Feed)
    ensures
        final(out)@ == old(out)@ + spec_print_feed(f@),
{
    out.append("(");
    append_quoted(out, f.id.as_str());
    out.append(" ");
    let st = f.source.token();
    out.append(st.as_str());
    out.append(" ");
    let ct = f.category.token();
    out.append(ct.as_str());
    out.append(" ");
    match &f.url {
        Some(u) => append_quoted(out, u.as_str()),
        None => out.append("-"),
    }
    out.append(")");
    proof {
        reveal_strlit("(");
        reveal_strlit(")");
        reveal_strlit(" ");
        reveal_strlit("-");
        assert("("@ =~= seq!['(']);
        assert(")"@ =~= seq![')']);
        assert(" "@ =~= seq![' ']);
        assert("-"@ =~= seq!['-']);
        assert(final(out)@ =~= old(out)@ + spec_print_feed(f@));
    }
}

impl Mim {
    /// The configuration text that stands for this feed list.
    pub fn to_config_string(&self) -> (r: String)
        ensures
            r@ == spec_print_config(self@),
    {
        let ghost fv = self.feeds.deep_view();
        let mut r = String::from_str("[");
        proof {
            reveal_strlit("[");
            assert("["@ =~= seq!['[']);
            assert(fv.take(0) =~= Seq::<FeedV>::empty());
            assert(r@ =~= seq!['['] + spec_print_feeds(fv.take(0)));
        }
        let mut i: usize = 0;
        while i < self.feeds.len()
            invariant
                fv == self.feeds.deep_view(),
                i <= self.feeds@.len(),
                r@ == seq!['['] + spec_print_feeds(fv.take(i as int)),
            decreases self.feeds@.len() - i,
        {
            append_feed(&mut r, &self.feeds[i]);
            proof {
                lemma_print_feeds_push(fv.take(i as int), fv[i as int]);
                assert(fv.take(i as int).push(fv[i as int]) =~= fv.take(i + 1));
                assert(r@ =~= seq!['['] + spec_print_feeds(fv.take(i + 1)));
            }
            i = i + 1;
        }
        r.append("]");
        proof {
            reveal_strlit("]");
            assert("]"@ =~= seq![']']);
            assert(fv.take(i as int) =~= fv);
            assert(r@ =~= spec_print_config(self@));
        }
        r
    }
}

// ---------------------------------------------------------------------
// The executable parser, index by index over the text.
// ---------------------------------------------------------------------
/// Splitting finds the text before the first occurrence and the text
/// after it.
proof fn lemma_split_at_found_at(t: Seq<char>, c: char, k: int)
    requires
        0 <= k < t.len(),
        t[k] == c,
        forall|i: int| 0 <= i < k ==> t[i] != c,
    ensures
        spec_split_at(t, c) == Some((t.take(k), t.skip(k + 1))),
    decreases k,
{
    if k == 0 {
        assert(t.take(0) =~= Seq::<char>::empty());
    } else {
        assert(t[0] != c);
        assert(t.skip(1)[k - 1] == c);
        assert(forall|i: int| 0 <= i < k - 1 ==> t.skip(1)[i] != c);
        lemma_split_at_found_at(t.skip(1), c, k - 1);
        assert(seq![t[0]] + t.skip(1).take(k - 1) =~= t.take(k));
        assert(t.skip(1).skip(k) =~= t.skip(k + 1));
    }
}

/// Splitting fails exactly when the character does not occur.
proof fn lemma_split_at_absent(t: Seq<char>, c: char)
    requires
        forall|i: int| 0 <= i < t.len() ==> t[i] != c,
    ensures
        spec_split_at(t, c) is None,
    decreases t.len(),
{
    if t.len() > 0 {
        assert(forall|i: int| 0 <= i < t.skip(1).len() ==> t.skip(1)[i] != c);
        lemma_split_at_absent(t.skip(1), c);
    }
}

/// One expected character at `idx`, consumed.
fn expect_exec(s: &str, idx: usize, c: char) -> (r: Option<usize>)
    requires
        idx <= s@.len(),
    ensures
        r matches Some(j) ==> j == idx + 1 && idx < s@.len() && spec_expect(
            s@.skip(idx as int),
            c,
        ) == Some(s@.skip(j as int)),
        r is None ==> spec_expect(s@.skip(idx as int), c) is None,
{
    let n = s.unicode_len();
    if idx < n && s.get_char(idx) == c {
        proof {
            assert(s@.skip(idx as int)[0] == s@[idx as int]);
            assert(s@.skip(idx as int).skip(1) =~= s@.skip(idx as int + 1));
        }
        Some(idx + 1)
    } else {
        proof {
            if idx < s@.len() {
                assert(s@.skip(idx as int)[0] == s@[idx as int]);
            }
        }
        None
    }
}

/// The text from `idx` up to the first later occurrence of `c`, and the
/// index after that occurrence.
fn split_at_exec(s: &str, idx: usize, c: char) -> (r: Option<(String, usize)>)
    requires
        idx <= s@.len(),
    ensures
        r matches Some(p) ==> idx < p.1 <= s@.len() && spec_split_at(s@.skip(idx as int), c)
            == Some((p.0@, s@.skip(p.1 as int))),
        r is None ==> spec_split_at(s@.skip(idx as int), c) is None,
{
    let n = s.unicode_len();
    let mut k: usize = idx;
    while k < n
        invariant
            idx <= k <= n,
            n == s@.len(),
            forall|i: int| idx <= i < k ==> s@[i] != c,
        decreases n - k,
    {
        if s.get_char(k) == c {
            let part = s.substring_char(idx, k);
            proof {
                let t = s@.skip(idx as int);
                assert(t[k - idx] == s@[k as int]);
                assert(forall|i: int| 0 <= i < k - idx ==> t[i] == s@[i + idx] && t[i] != c);
                lemma_split_at_found_at(t, c, k - idx);
                assert(t.take(k - idx) =~= s@.subrange(idx as int, k as int));
                assert(t.skip(k - idx + 1) =~= s@.skip(k as int + 1));
            }
            return Some((String::from_str(part), k + 1));
        }
        k = k + 1;
    }
    proof {
        let t = s@.skip(idx as int);
        assert(forall|i: int| 0 <= i < t.len() ==> t[i] == s@[i + idx] && t[i] != c);
        lemma_split_at_absent(t, c);
    }
    None
}

/// A quoted string starting at `idx`: its body and the index after the
/// closing quote.
fn parse_quoted_exec(s: &str, idx: usize) -> (r: Option<(String, usize)>)
    requires
        idx <= s@.len(),
    ensures
        r matches Some(p) ==> idx < p.1 <= s@.len() && spec_parse_quoted(s@.skip(idx as int))
            == Some((p.0@, s@.skip(p.1 as int))),
        r is None ==> spec_parse_quoted(s@.skip(idx as int)) is None,
{
    match expect_exec(s, idx, '"') {
        None => None,
        Some(j) => split_at_exec(s, j, '"'),
    }
}

/// An optional URL starting at `idx`.
fn parse_urlopt_exec(s: &str, idx: usize) -> (r: Option<(Option<String>, usize)>)
    requires
        idx <= s@.len(),
    ensures
        r matches Some(p) ==> idx < p.1 <= s@.len() && spec_parse_urlopt(s@.skip(idx as int))
            == Some((p.0.deep_view(), s@.skip(p.1 as int))),
        r is None ==> spec_parse_urlopt(s@.skip(idx as int)) is None,
{
    let n = s.unicode_len();
    if idx < n && s.get_char(idx) == '-' {
        proof {
            assert(s@.skip(idx as int)[0] == s@[idx as int]);
            assert(s@.skip(idx as int).skip(1) =~= s@.skip(idx as int + 1));
        }
        return Some((None, idx + 1));
    }
    proof {
        if idx < s@.len() {
            assert(s@.skip(idx as int)[0] == s@[idx as int]);
        }
    }
    match parse_quoted_exec(s, idx) {
        Some((u, j)) => Some((Some(u), j)),
        None => None,
    }
}

/// One printed feed starting at `idx`: the feed and the index after its
/// closing parenthesis.
fn parse_feed_exec(s: &str, idx: usize) -> (r: Option<(Feed, usize)>)
    requires
        idx <= s@.len(),
    ensures
        r matches Some(p) ==> idx < p.1 <= s@.len() && spec_parse_feed(s@.skip(idx as int))
            == Some((p.0@, s@.skip(p.1 as int))),
        r is None ==> spec_parse_feed(s@.skip(idx as int)) is None,
{
    let j0 = match expect_exec(s, idx, '(') {
        Some(j) => j,
        None => {
            return None;
        },
    };
    let (id, j1) = match parse_quoted_exec(s, j0) {
        Some(p) => p,
        None => {
            return None;
        },
    };
    let j2 = match expect_exec(s, j1, ' ') {
        Some(j) => j,
        None => {
            return None;
        },
    };
    let (st, j3) = match split_at_exec(s, j2, ' ') {
        Some(p) => p,
        None => {
            return None;
        },
    };
    let source = match Source::from_token(st.as_str()) {
        Some(x) => x,
        None => {
            return None;
        },
    };
    let (ct, j4) = match split_at_exec(s, j3, ' ') {
        Some(p) => p,
        None => {
            return None;
        },
    };
    let category = match Category::from_token(ct.as_str()) {
        Some(x) => x,
        None => {
            return None;
        },
    };
    let (url, j5) = match parse_urlopt_exec(s, j4) {
        Some(p) => p,
        None => {
            return None;
        },
    };
    let j6 = match expect_exec(s, j5, ')') {
        Some(j) => j,
        None => {
            return None;
        },
    };
    Some((Feed { id, source, category, url }, j6))
}

impl Mim {
    /// The feed list that a configuration text denotes, or nothing when
    /// the text is not exactly a printed configuration. Parsing a text
    /// that `to_config_string` produced yields the feed list it was
    /// given.
    pub fn from_config_string(s: &str) -> (r: Option<Mim>)
        ensures
            r matches Some(m) ==> spec_parse_config(s@) == Some(m@),
            r is None ==> spec_parse_config(s@) is None,
    {
        let n = s.unicode_len();
        if n == 0 || s.get_char(0) != '[' {
            return None;
        }
        let mut feeds: Vec<Feed> = Vec::new();
        let mut idx: usize = 1;
        proof {
            assert(feeds.deep_view() =~= Seq::<FeedV>::empty());
            match spec_parse_feeds(s@.skip(1)) {
                Some(p) => {
                    assert(feeds.deep_view() + p.0 =~= p.0);
                },
                None => {},
            }
        }
        while idx < n
            invariant
                1 <= idx <= n,
                n == s@.len(),
                s@.len() > 0,
                s@[0] == '[',
                match spec_parse_feeds(s@.skip(idx as int)) {
                    Some(p) => spec_parse_feeds(s@.skip(1)) == Some(
                        (feeds.deep_view() + p.0, p.1),
                    ),
                    None => spec_parse_feeds(s@.skip(1)) is None,
                },
            decreases n - idx,
        {
            let ghost t = s@.skip(idx as int);
            proof {
                assert(t[0] == s@[idx as int]);
            }
            if s.get_char(idx) == ']' {
                proof {
                    assert(t.skip(1) =~= s@.skip(idx as int + 1));
                    assert(spec_parse_feeds(t) == Some(
                        (Seq::<FeedV>::empty(), s@.skip(idx as int + 1)),
                    ));
                    assert(feeds.deep_view() + Seq::<FeedV>::empty() =~= feeds.deep_view());
                }
                if idx + 1 == n {
                    let m = Mim { feeds };
                    proof {
                        assert(s@.skip(idx as int + 1).len() == 0);
                        assert(s@.skip(0) =~= s@);
                    }
                    return Some(m);
                }
                proof {
                    assert(s@.skip(idx as int + 1).len() > 0);
                }
                return None;
            }
            match parse_feed_exec(s, idx) {
                None => {
                    proof {
                        assert(spec_parse_feeds(t) is None);
                    }
                    return None;
                },
                Some((f, j)) => {
                    proof {
                        let fv = f@;
                        let rest = s@.skip(j as int);
                        assert(rest.len() < t.len());
                        assert(spec_parse_feeds(t) == match spec_parse_feeds(rest) {
                            None => None::<(Seq<FeedV>, Seq<char>)>,
                            Some(p) => Some((seq![fv] + p.0, p.1)),
                        });
                        match spec_parse_feeds(rest) {
                            Some(p) => {
                                assert(feeds.deep_view() + (seq![fv] + p.0)
                                    =~= feeds.deep_view().push(fv) + p.0);
                            },
                            None => {},
                        }
                    }
                    let ghost old_feeds = feeds.deep_view();
                    feeds.push(f);
                    proof {
                        assert(feeds.deep_view() =~= old_feeds.push(f@));
                    }
                    idx = j;
                },
            }
        }
        proof {
            assert(s@.skip(idx as int).len() == 0);
        }
        None
    }
}

} // verus!
