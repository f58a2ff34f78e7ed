//! The web search tool: the query URL and the extraction of result snippets from
//! the search engine's HTML page.
use vstd::prelude::*;

use percent_encoding::{utf8_percent_encode, NON_ALPHANUMERIC};

use crate::text::{
    chars_of, decimal, find_exec, find_from, join, lemma_find_from, occurs_at, push_char,
    push_padded_decimal, replace_all, replaced, string_of, trim_chars, trimmed, zero_pad,
};

verus! {

/// `s` with the text inside `<...>` tags removed, and whether `s` ends inside a tag.
pub open spec fn untagged(s: Seq<char>) -> (Seq<char>, bool)
    decreases s.len(),
{
    if s.len() == 0 {
        (Seq::empty(), false)
    } else {
        let (out, in_tag) = untagged(s.drop_last());
        let c = s.last();
        if c == '<' {
            (out, true)
        } else if c == '>' {
            (out, false)
        } else if !in_tag {
            (out.push(c), in_tag)
        } else {
            (out, in_tag)
        }
    }
}

/// `s` with the entities `&amp;`, `&lt;`, `&gt;`, `&quot;` and `&#39;` decoded, in
/// that order.
pub open spec fn decode_entities(s: Seq<char>) -> Seq<char> {
    let a = replaced(s, seq!['&', 'a', 'm', 'p', ';'], seq!['&']);
    let b = replaced(a, seq!['&', 'l', 't', ';'], seq!['<']);
    let c = replaced(b, seq!['&', 'g', 't', ';'], seq!['>']);
    let d = replaced(c, seq!['&', 'q', 'u', 'o', 't', ';'], seq!['"']);
    replaced(d, seq!['&', '#', '3', '9', ';'], seq!['\''])
}

/// The plain text of an HTML fragment: tags removed, entities decoded.
pub open spec fn stripped(s: Seq<char>) -> Seq<char> {
    decode_entities(untagged(s).0)
}

/// The attribute that marks a result snippet.
pub open spec fn snippet_marker() -> Seq<char> {
    seq![
        'c', 'l', 'a', 's', 's', '=', '"', 'r', 'e', 's', 'u', 'l', 't', '_', '_', 's', 'n', 'i',
        'p', 'p', 'e', 't', '"',
    ]
}

/// The tag that closes a result snippet.
pub open spec fn closing_tag() -> Seq<char> {
    seq!['<', '/', 'a', '>']
}

/// The raw HTML of the result snippets of `h` from position `pos` on: after each
/// snippet marker, the text from the end of its tag to the next `</a>`. The scan
/// stops at the first marker that lacks either.
pub open spec fn snippets(h: Seq<char>, pos: int) -> Seq<Seq<char>>
    decreases h.len() + 1 - pos,
{
    if pos < 0 || pos > h.len() {
        Seq::empty()
    } else {
        match find_from(h, snippet_marker(), pos) {
            None => Seq::empty(),
            Some(s) => match find_from(h, seq!['>'], s) {
                None => Seq::empty(),
                Some(g) => match find_from(h, closing_tag(), g + 1) {
                    None => Seq::empty(),
                    Some(e) => {
                        proof {
                            lemma_find_from(h, snippet_marker(), pos);
                            lemma_find_from(h, seq!['>'], s);
                            lemma_find_from(h, closing_tag(), g + 1);
                        }
                        seq![h.subrange(g + 1, e)] + snippets(h, e + 4)
                    },
                },
            },
        }
    }
}

/// The text is not empty.
pub open spec fn not_blank(s: Seq<char>) -> bool {
    s.len() > 0
}

/// The cleaned text of each raw snippet.
pub open spec fn cleaned(raws: Seq<Seq<char>>) -> Seq<Seq<char>> {
    raws.map_values(|r: Seq<char>| trimmed(stripped(r)))
}

/// The non-empty texts of `s`.
pub open spec fn non_blank(s: Seq<Seq<char>>) -> Seq<Seq<char>> {
    s.filter(|t: Seq<char>| not_blank(t))
}

/// At most the first five elements of `s`.
pub open spec fn first_five(s: Seq<Seq<char>>) -> Seq<Seq<char>> {
    if s.len() <= 5 {
        s
    } else {
        s.take(5)
    }
}

/// The search results of an HTML page: the first five non-empty cleaned snippets.
pub open spec fn search_results(h: Seq<char>) -> Seq<Seq<char>> {
    first_five(non_blank(cleaned(snippets(h, 0))))
}

/// Results numbered from 1: `"<n>. <text>"`.
pub open spec fn numbered(rs: Seq<Seq<char>>) -> Seq<Seq<char>> {
    Seq::new(rs.len(), |i: int| decimal((i + 1) as nat) + seq!['.', ' '] + rs[i])
}

/// The text the search tool answers for an HTML page.
pub open spec fn search_answer(h: Seq<char>) -> Seq<char> {
    let rs = search_results(h);
    if rs.len() == 0 {
        "No search results found."@
    } else {
        join(numbered(rs), seq!['\n'])
    }
}

/// The text of one byte in a query: ASCII letters and digits stand for themselves,
/// every other byte becomes `%` and two upper-case hexadecimal digits.
pub open spec fn byte_text(b: u8) -> Seq<char> {
    if (48 <= b <= 57) || (65 <= b <= 90) || (97 <= b <= 122) {
        seq![b as char]
    } else {
        seq!['%', upper_hex_digit(b / 16), upper_hex_digit(b % 16)]
    }
}

/// Upper-case hexadecimal digit of `d` (0 to 15).
pub open spec fn upper_hex_digit(d: u8) -> char {
    if d < 10 {
        (48 + d) as char
    } else {
        (55 + d) as char
    }
}

/// Percent-encoding of a byte sequence, byte by byte.
pub open spec fn percent_encoded(bytes: Seq<u8>) -> Seq<char>
    decreases bytes.len(),
{
    if bytes.len() == 0 {
        Seq::empty()
    } else {
        percent_encoded(bytes.drop_last()) + byte_text(bytes.last())
    }
}

/// The prefix of every search URL.
pub open spec fn search_url_prefix() -> Seq<char> {
    "https://html.duckduckgo.com/html/?q="@
}

/// `percent_encoding::utf8_percent_encode(query, NON_ALPHANUMERIC)`, written out as
/// a string: the UTF-8 bytes of `query`, each ASCII letter or digit kept, every
/// other byte written as `%XX` in upper-case hexadecimal.
#[verifier::external_body]
fn percent_encode_query(query: &str) -> (r: String)
    ensures
        r@ == percent_encoded(vstd::utf8::encode_utf8(query@)),
{
    utf8_percent_encode(query, NON_ALPHANUMERIC).to_string()
}

/// The URL that asks the search engine's HTML page for `query`.
pub fn search_url(query: &str) -> (r: String)
    ensures
        r@ == search_url_prefix() + percent_encoded(vstd::utf8::encode_utf8(query@)),
{
    let mut url = String::from_str("https://html.duckduckgo.com/html/?q=");
    let encoded = percent_encode_query(query);
    url.append(encoded.as_str());
    url
}

fn strip_chars(s: &Vec<char>) -> (r: Vec<char>)
    ensures
        r@ == stripped(s@),
{
    let mut out: Vec<char> = Vec::new();
    let mut in_tag = false;
    let mut i: usize = 0;
    while i < s.len()
        invariant
            i <= s.len(),
            untagged(s@.take(i as int)) == (out@, in_tag),
        decreases s.len() - i,
    {
        let c = s[i];
        assert(s@.take(i + 1).drop_last() =~= s@.take(i as int));
        if c == '<' {
            in_tag = true;
        } else if c == '>' {
            in_tag = false;
        } else if !in_tag {
            out.push(c);
        }
        i = i + 1;
    }
    assert(s@.take(s.len() as int) =~= s@);
    let e_amp = vec!['&', 'a', 'm', 'p', ';'];
    let e_lt = vec!['&', 'l', 't', ';'];
    let e_gt = vec!['&', 'g', 't', ';'];
    let e_quot = vec!['&', 'q', 'u', 'o', 't', ';'];
    let e_apos = vec!['&', '#', '3', '9', ';'];
    let c_amp = vec!['&'];
    let c_lt = vec!['<'];
    let c_gt = vec!['>'];
    let c_quot = vec!['"'];
    let c_apos = vec!['\''];
    assert(e_amp@ == seq!['&', 'a', 'm', 'p', ';']);
    assert(e_lt@ == seq!['&', 'l', 't', ';']);
    assert(e_gt@ == seq!['&', 'g', 't', ';']);
    assert(e_quot@ == seq!['&', 'q', 'u', 'o', 't', ';']);
    assert(e_apos@ == seq!['&', '#', '3', '9', ';']);
    assert(c_amp@ == seq!['&']);
    assert(c_lt@ == seq!['<']);
    assert(c_gt@ == seq!['>']);
    assert(c_quot@ == seq!['"']);
    assert(c_apos@ == seq!['\'']);
    let amp = replace_all(&out, &e_amp, &c_amp);
    let lt = replace_all(&amp, &e_lt, &c_lt);
    let gt = replace_all(&lt, &e_gt, &c_gt);
    let quot = replace_all(&gt, &e_quot, &c_quot);
    replace_all(&quot, &e_apos, &c_apos)
}

/// Remove HTML tags from a fragment and decode the common entities.
pub fn strip_html_tags(s: &str) -> (r: String)
    ensures
        r@ == stripped(s@),
{
    let chars = chars_of(s);
    let out = strip_chars(&chars);
    string_of(&out)
}

proof fn lemma_first_five_push(s: Seq<Seq<char>>, x: Seq<char>)
    ensures
        first_five(s.push(x)) == if s.len() < 5 {
            first_five(s).push(x)
        } else {
            first_five(s)
        },
{
    if s.len() >= 5 {
        assert(s.push(x).take(5) =~= s.take(5));
    }
}

proof fn lemma_cleaned_push(raws: Seq<Seq<char>>, r: Seq<char>)
    ensures
        cleaned(raws.push(r)) == cleaned(raws).push(trimmed(stripped(r))),
{
    assert(cleaned(raws.push(r)) =~= cleaned(raws).push(trimmed(stripped(r))));
}

fn copy_range(h: &Vec<char>, lo: usize, hi: usize) -> (r: Vec<char>)
    requires
        lo <= hi <= h.len(),
    ensures
        r@ == h@.subrange(lo as int, hi as int),
{
    let mut r: Vec<char> = Vec::new();
    let mut k = lo;
    while k < hi
        invariant
            lo <= k <= hi,
            hi <= h.len(),
            r@ == h@.subrange(lo as int, k as int),
        decreases hi - k,
    {
        r.push(h[k]);
        k = k + 1;
        assert(r@ =~= h@.subrange(lo as int, k as int));
    }
    r
}

fn results_of(html: &str) -> (r: Vec<Vec<char>>)
    ensures
        r@.map_values(|v: Vec<char>| v@) == search_results(html@),
{
    let h = chars_of(html);
    let marker = vec![
        'c', 'l', 'a', 's', 's', '=', '"', 'r', 'e', 's', 'u', 'l', 't', '_', '_', 's', 'n', 'i',
        'p', 'p', 'e', 't', '"',
    ];
    let gt = vec!['>'];
    let end = vec!['<', '/', 'a', '>'];
    assert(marker@ == snippet_marker());
    assert(gt@ == seq!['>']);
    assert(end@ == closing_tag());
    let mut results: Vec<Vec<char>> = Vec::new();
    let ghost mut done: Seq<Seq<char>> = Seq::empty();
    let mut pos: usize = 0;
    assert(snippets(h@, 0) =~= done + snippets(h@, 0));
    loop
        invariant
            h@ == html@,
            marker@ == snippet_marker(),
            gt@ == seq!['>'],
            end@ == closing_tag(),
            pos <= h.len(),
            snippets(h@, 0) == done + snippets(h@, pos as int),
            results@.map_values(|v: Vec<char>| v@) == first_five(non_blank(cleaned(done))),
        ensures
            snippets(h@, 0) == done,
            results@.map_values(|v: Vec<char>| v@) == first_five(non_blank(cleaned(done))),
        decreases h.len() + 1 - pos,
    {
        let s = match find_exec(&h, &marker, pos) {
            Some(s) => s,
            None => {
                assert(snippets(h@, 0) =~= done);
                break ;
            },
        };
        proof {
            lemma_find_from(h@, snippet_marker(), pos as int);
        }
        let g = match find_exec(&h, &gt, s) {
            Some(g) => g,
            None => {
                assert(snippets(h@, 0) =~= done);
                break ;
            },
        };
        proof {
            lemma_find_from(h@, seq!['>'], s as int);
        }
        let e = match find_exec(&h, &end, g + 1) {
            Some(e) => e,
            None => {
                assert(snippets(h@, 0) =~= done);
                break ;
            },
        };
        proof {
            lemma_find_from(h@, closing_tag(), g + 1);
        }
        let raw = copy_range(&h, g + 1, e);
        let clean = trim_chars(&strip_chars(&raw));
        let ghost before = results@;
        proof {
            lemma_cleaned_push(done, raw@);
            cleaned(done).lemma_filter_push(trimmed(stripped(raw@)), |t: Seq<char>| not_blank(t));
            lemma_first_five_push(non_blank(cleaned(done)), trimmed(stripped(raw@)));
            assert(results@.map_values(|v: Vec<char>| v@).len() == first_five(non_blank(cleaned(done))).len());
        }
        if clean.len() > 0 && results.len() < 5 {
            results.push(clean);
            assert(results@.map_values(|v: Vec<char>| v@) =~= before.map_values(|v: Vec<char>| v@).push(
                trimmed(stripped(raw@)),
            ));
        }
        proof {
            assert(snippets(h@, pos as int) == seq![raw@] + snippets(h@, e + 4));
            assert(done + snippets(h@, pos as int) =~= done.push(raw@) + snippets(h@, e + 4));
            done = done.push(raw@);
        }
        pos = e + 4;
    }
    results
}

/// The answer of the search tool for an HTML result page: up to five numbered
/// result snippets, one per line, or a note that nothing was found.
pub fn extract_search_results(html: &str) -> (r: String)
    ensures
        r@ == search_answer(html@),
{
    let results = results_of(html);
    let ghost rs = search_results(html@);
    if results.len() == 0 {
        return String::from_str("No search results found.");
    }
    let mut out = String::new();
    let mut i: usize = 0;
    assert(results@.map_values(|v: Vec<char>| v@).len() == results.len());
    assert(numbered(rs).take(0) =~= Seq::<Seq<char>>::empty());
    while i < results.len()
        invariant
            i <= results.len(),
            results.len() <= 5,
            results@.map_values(|v: Vec<char>| v@) == rs,
            out@ == join(numbered(rs).take(i as int), seq!['\n']),
        decreases results.len() - i,
    {
        let ghost prev = out@;
        if i > 0 {
            push_char(&mut out, '\n');
        }
        push_padded_decimal(&mut out, (i + 1) as u128, 0);
        push_char(&mut out, '.');
        push_char(&mut out, ' ');
        let line = string_of(&results[i]);
        out.append(line.as_str());
        proof {
            assert(zero_pad(decimal((i + 1) as nat), 0) == decimal((i + 1) as nat));
            assert(numbered(rs).take(i + 1).drop_last() =~= numbered(rs).take(i as int));
            assert(numbered(rs)[i as int] == decimal((i + 1) as nat) + seq!['.', ' '] + rs[i as int]);
            if i > 0 {
                assert(out@ =~= prev + seq!['\n'] + numbered(rs)[i as int]);
            } else {
                assert(out@ =~= numbered(rs)[i as int]);
            }
        }
        i = i + 1;
    }
    assert(numbered(rs).take(results.len() as int) =~= numbered(rs));
    out
}

/// Removing tags leaves no `<` or `>` behind.
pub proof fn law_untagged_has_no_brackets(s: Seq<char>)
    ensures
        !untagged(s).0.contains('<'),
        !untagged(s).0.contains('>'),
    decreases s.len(),
{
    if s.len() > 0 {
        law_untagged_has_no_brackets(s.drop_last());
        let prev = untagged(s.drop_last()).0;
        let c = s.last();
        if c != '<' && c != '>' && !untagged(s.drop_last()).1 {
            assert forall|k: int| 0 <= k < prev.push(c).len() implies prev.push(c)[k] != '<' && prev.push(c)[k]
                != '>' by {
                if k < prev.len() {
                    assert(prev.push(c)[k] == prev[k]);
                }
            }
        }
    }
}

proof fn lemma_join_starts(parts: Seq<Seq<char>>, sep: Seq<char>)
    requires
        parts.len() > 0,
        parts[0].len() > 0,
    ensures
        join(parts, sep).len() > 0,
        join(parts, sep)[0] == parts[0][0],
    decreases parts.len(),
{
    if parts.len() > 1 {
        lemma_join_starts(parts.drop_last(), sep);
    }
}

/// The shape of the search tool's answer: "No search results found." exactly when
/// no snippet has text; otherwise one entry per result, at most five, numbered from
/// 1 as `"<n>. <text>"` and joined with line breaks, where the results are the first
/// non-empty cleaned snippets in page order.
pub proof fn law_search_answer_lines(h: Seq<char>)
    ensures
        search_results(h).len() <= 5,
        search_results(h).len() == 0 <==> search_answer(h) == "No search results found."@,
        search_results(h).len() > 0 ==> search_answer(h) == join(numbered(search_results(h)), seq!['\n']),
        forall|i: int|
            0 <= i < search_results(h).len() ==> #[trigger] numbered(search_results(h))[i] == decimal(
                (i + 1) as nat,
            ) + seq!['.', ' '] + search_results(h)[i] && search_results(h)[i].len() > 0
                && search_results(h)[i] == non_blank(cleaned(snippets(h, 0)))[i],
{
    let rs = search_results(h);
    let all = non_blank(cleaned(snippets(h, 0)));
    assert forall|i: int| 0 <= i < rs.len() implies rs[i] == all[i] && rs[i].len() > 0 by {
        assert(rs[i] == all[i]);
        cleaned(snippets(h, 0)).lemma_filter_pred(|t: Seq<char>| not_blank(t), i);
    }
    if rs.len() > 0 {
        let first = numbered(rs)[0];
        assert(first == decimal(1) + seq!['.', ' '] + rs[0]);
        assert(decimal(1) == seq!['1']);
        lemma_join_starts(numbered(rs), seq!['\n']);
        assert(join(numbered(rs), seq!['\n'])[0] == '1');
        assert("No search results found."@[0] == 'N') by {
            reveal_strlit("No search results found.");
        }
    }
}

/// `text` is the snippet of the marker at `m`: the marker occurs at `m`, the first
/// `>` at or after it is at `g`, the first `</a>` after that at `e`, and `text` is
/// what lies between them.
pub open spec fn snippet_of_marker(h: Seq<char>, m: int, g: int, e: int, text: Seq<char>) -> bool {
    &&& occurs_at(h, snippet_marker(), m)
    &&& find_from(h, seq!['>'], m) == Some(g)
    &&& m <= g
    &&& find_from(h, closing_tag(), g + 1) == Some(e)
    &&& text == h.subrange(g + 1, e)
}

/// `text` is the snippet of some marker at or after `pos`.
pub open spec fn snippet_after(h: Seq<char>, pos: int, text: Seq<char>) -> bool {
    exists|m: int, g: int, e: int| pos <= m && #[trigger] snippet_of_marker(h, m, g, e, text)
}

proof fn lemma_snippet_follows_marker(h: Seq<char>, pos: int, k: int)
    requires
        0 <= k < snippets(h, pos).len(),
    ensures
        snippet_after(h, pos, snippets(h, pos)[k]),
    decreases h.len() + 1 - pos,
{
    let s = find_from(h, snippet_marker(), pos)->0;
    lemma_find_from(h, snippet_marker(), pos);
    let g = find_from(h, seq!['>'], s)->0;
    lemma_find_from(h, seq!['>'], s);
    let e = find_from(h, closing_tag(), g + 1)->0;
    lemma_find_from(h, closing_tag(), g + 1);
    let rest = snippets(h, e + 4);
    assert(snippets(h, pos) == seq![h.subrange(g + 1, e)] + rest);
    if k == 0 {
        assert(snippet_of_marker(h, s, g, e, snippets(h, pos)[k]));
    } else {
        assert(snippets(h, pos)[k] == rest[k - 1]);
        lemma_snippet_follows_marker(h, e + 4, k - 1);
        let (m, g2, e2) = choose|m: int, g2: int, e2: int|
            e + 4 <= m && #[trigger] snippet_of_marker(h, m, g2, e2, rest[k - 1]);
        assert(snippet_of_marker(h, m, g2, e2, snippets(h, pos)[k]));
    }
}

/// Every raw snippet from position `pos` on is the text after a snippet marker at or
/// after `pos`: it starts right after the first `>` at or after that marker and ends
/// at the first `</a>` after that. No snippet comes from text before its marker.
pub proof fn law_snippets_follow_markers(h: Seq<char>, pos: int)
    ensures
        forall|k: int| 0 <= k < snippets(h, pos).len() ==> #[trigger] snippet_after(h, pos, snippets(h, pos)[k]),
{
    assert forall|k: int| 0 <= k < snippets(h, pos).len() implies #[trigger] snippet_after(h, pos, snippets(h, pos)[k]) by {
        lemma_snippet_follows_marker(h, pos, k);
    }
}

} // verus!
