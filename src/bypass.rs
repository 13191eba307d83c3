//! The bypass list: an ordered list of address patterns, stored as one
//! string in which `;` separates the entries.

use vstd::prelude::*;
use vstd::string::*;
use vstd::utf8::encode_utf8;

verus! {

/// The character that separates two entries.
pub const DELIMITER: char = ';';

/// Unicode's White_Space property, the whitespace that trimming removes.
pub open spec fn is_white_space(c: char) -> bool {
    let v = c as u32;
    ||| 0x9 <= v <= 0xd
    ||| v == 0x20
    ||| v == 0x85
    ||| v == 0xa0
    ||| v == 0x1680
    ||| 0x2000 <= v <= 0x200a
    ||| v == 0x2028
    ||| v == 0x2029
    ||| v == 0x202f
    ||| v == 0x205f
    ||| v == 0x3000
}

/// `s` without its leading whitespace.
pub open spec fn trim_start(s: Seq<char>) -> Seq<char>
    decreases s.len(),
{
    if s.len() > 0 && is_white_space(s[0]) {
        trim_start(s.drop_first())
    } else {
        s
    }
}

/// `s` without its trailing whitespace.
pub open spec fn trim_end(s: Seq<char>) -> Seq<char>
    decreases s.len(),
{
    if s.len() > 0 && is_white_space(s.last()) {
        trim_end(s.drop_last())
    } else {
        s
    }
}

/// `s` without its leading and trailing whitespace.
pub open spec fn trim(s: Seq<char>) -> Seq<char> {
    trim_end(trim_start(s))
}

/// Whether `c` is whitespace.
pub fn white_space(c: char) -> (r: bool)
    ensures
        r == is_white_space(c),
{
    let v = c as u32;
    (0x9 <= v && v <= 0xd) || v == 0x20 || v == 0x85 || v == 0xa0 || v == 0x1680 || (0x2000 <= v
        && v <= 0x200a) || v == 0x2028 || v == 0x2029 || v == 0x202f || v == 0x205f || v == 0x3000
}

proof fn lemma_trim_start_at(s: Seq<char>, a: int)
    requires
        0 <= a <= s.len(),
        forall|i: int| 0 <= i < a ==> is_white_space(#[trigger] s[i]),
        a == s.len() || !is_white_space(s[a]),
    ensures
        trim_start(s) == s.subrange(a, s.len() as int),
    decreases a,
{
    if a == 0 {
        assert(s.subrange(0, s.len() as int) =~= s);
    } else {
        lemma_trim_start_at(s.drop_first(), a - 1);
        assert(s.drop_first().subrange(a - 1, s.len() - 1) =~= s.subrange(a, s.len() as int));
    }
}

proof fn lemma_trim_end_at(s: Seq<char>, e: int)
    requires
        0 <= e <= s.len(),
        forall|i: int| e <= i < s.len() ==> is_white_space(#[trigger] s[i]),
        e == 0 || !is_white_space(s[e - 1]),
    ensures
        trim_end(s) == s.subrange(0, e),
    decreases s.len() - e,
{
    if e == s.len() {
        assert(s.subrange(0, e) =~= s);
    } else {
        lemma_trim_end_at(s.drop_last(), e);
        assert(s.drop_last().subrange(0, e) =~= s.subrange(0, e));
    }
}

/// The characters of `s`, in order.
pub fn chars_of(s: &str) -> (r: Vec<char>)
    ensures
        r@ == s@,
{
    let mut out: Vec<char> = Vec::new();
    for c in it: s.chars()
        invariant
            out@ == it.seq().subrange(0, it.index() as int),
    {
        out.push(c);
    }
    out
}

/// The characters `start..end` of `s`, trimmed. `chars` holds the
/// characters of `s`.
fn trimmed_range(s: &str, chars: &Vec<char>, start: usize, end: usize) -> (r: String)
    requires
        chars@ == s@,
        start <= end <= chars@.len(),
    ensures
        r@ == trim(s@.subrange(start as int, end as int)),
{
    let ghost p = s@.subrange(start as int, end as int);
    let mut a = start;
    while a < end && white_space(chars[a])
        invariant
            start <= a <= end <= chars@.len(),
            forall|i: int| start <= i < a ==> is_white_space(#[trigger] chars@[i]),
        decreases end - a,
    {
        a = a + 1;
    }
    let mut e = end;
    while e > a && white_space(chars[e - 1])
        invariant
            start <= a <= e <= end <= chars@.len(),
            forall|i: int| e <= i < end ==> is_white_space(#[trigger] chars@[i]),
        decreases e - a,
    {
        e = e - 1;
    }
    proof {
        lemma_trim_start_at(p, a - start);
        let q = p.subrange(a - start, p.len() as int);
        assert(q =~= s@.subrange(a as int, end as int));
        lemma_trim_end_at(q, e - a);
        assert(q.subrange(0, e - a) =~= s@.subrange(a as int, e as int));
    }
    s.substring_char(a, e).to_owned()
}

/// `s` without its leading and trailing whitespace.
pub fn trim_str(s: &str) -> (r: String)
    ensures
        r@ == trim(s@),
{
    let chars = chars_of(s);
    assert(s@.subrange(0, s@.len() as int) =~= s@);
    trimmed_range(s, &chars, 0, chars.len())
}

/// The pieces of `s` between delimiters, in order; one more than the
/// number of delimiters.
pub open spec fn split_pieces(s: Seq<char>) -> Seq<Seq<char>>
    decreases s.len(),
{
    if s.len() == 0 {
        seq![Seq::empty()]
    } else if s.last() == DELIMITER {
        split_pieces(s.drop_last()).push(Seq::empty())
    } else {
        let r = split_pieces(s.drop_last());
        r.update(r.len() - 1, r.last().push(s.last()))
    }
}

/// The pieces trimmed, with those left empty dropped.
pub open spec fn clean_entries(p: Seq<Seq<char>>) -> Seq<Seq<char>>
    decreases p.len(),
{
    if p.len() == 0 {
        Seq::empty()
    } else {
        let r = clean_entries(p.drop_last());
        let t = trim(p.last());
        if t.len() == 0 {
            r
        } else {
            r.push(t)
        }
    }
}

/// The list that a delimited string stands for.
pub open spec fn parse_list(s: Seq<char>) -> Seq<Seq<char>> {
    clean_entries(split_pieces(s))
}

/// The entries trimmed and joined with the delimiter; empty entries are kept.
pub open spec fn join_list(l: Seq<Seq<char>>) -> Seq<char>
    decreases l.len(),
{
    if l.len() == 0 {
        Seq::empty()
    } else if l.len() == 1 {
        trim(l[0])
    } else {
        join_list(l.drop_last()).push(DELIMITER) + trim(l.last())
    }
}

/// An entry that the delimited form holds as it is: not empty, no
/// delimiter in it, no whitespace at either end.
pub open spec fn is_clean_entry(e: Seq<char>) -> bool {
    e.len() > 0 && !e.contains(DELIMITER) && trim(e) == e
}

/// The contents of a list of strings.
pub open spec fn strings_view(v: Seq<String>) -> Seq<Seq<char>> {
    v.map_values(|x: String| x@)
}

proof fn lemma_split_len(s: Seq<char>)
    ensures
        split_pieces(s).len() >= 1,
    decreases s.len(),
{
    if s.len() > 0 {
        lemma_split_len(s.drop_last());
    }
}

proof fn lemma_trim_start_suffix(s: Seq<char>)
    ensures
        trim_start(s).len() <= s.len(),
        trim_start(s) == s.subrange(s.len() - trim_start(s).len(), s.len() as int),
        trim_start(s).len() == 0 || !is_white_space(trim_start(s)[0]),
    decreases s.len(),
{
    if s.len() > 0 && is_white_space(s[0]) {
        lemma_trim_start_suffix(s.drop_first());
        let t = trim_start(s.drop_first());
        assert(s.drop_first().subrange(s.len() - 1 - t.len(), s.len() - 1) =~= s.subrange(
            s.len() - t.len(),
            s.len() as int,
        ));
    } else {
        assert(s.subrange(0, s.len() as int) =~= s);
    }
}

proof fn lemma_trim_end_prefix(s: Seq<char>)
    ensures
        trim_end(s).len() <= s.len(),
        trim_end(s) == s.subrange(0, trim_end(s).len() as int),
        trim_end(s).len() == 0 || !is_white_space(trim_end(s).last()),
    decreases s.len(),
{
    if s.len() > 0 && is_white_space(s.last()) {
        lemma_trim_end_prefix(s.drop_last());
        let t = trim_end(s.drop_last());
        assert(s.drop_last().subrange(0, t.len() as int) =~= s.subrange(0, t.len() as int));
    } else {
        assert(s.subrange(0, s.len() as int) =~= s);
    }
}

/// Trimming a trimmed string changes nothing, and trimming adds no
/// delimiter.
pub proof fn lemma_trim_idempotent(s: Seq<char>)
    ensures
        trim(trim(s)) == trim(s),
        !s.contains(DELIMITER) ==> !trim(s).contains(DELIMITER),
{
    let u = trim_start(s);
    let t = trim(s);
    lemma_trim_start_suffix(s);
    lemma_trim_end_prefix(u);
    let a = s.len() - u.len();
    assert forall|j: int| 0 <= j < t.len() implies t[j] == s[a + j] by {
        assert(t[j] == u[j]);
    }
    if t.len() > 0 {
        assert(t[0] == u[0]);
        assert(trim_start(t) == t);
    }
    assert(trim_end(trim_start(t)) == t);
    if !s.contains(DELIMITER) {
        assert forall|j: int| 0 <= j < t.len() implies t[j] != DELIMITER by {
            assert(t[j] == s[a + j]);
        }
    }
}

proof fn lemma_split_pieces_clean(s: Seq<char>)
    ensures
        forall|i: int|
            0 <= i < split_pieces(s).len() ==> !(#[trigger] split_pieces(s)[i]).contains(
                DELIMITER,
            ),
    decreases s.len(),
{
    if s.len() > 0 {
        lemma_split_pieces_clean(s.drop_last());
        lemma_split_len(s.drop_last());
        let r = split_pieces(s.drop_last());
        if s.last() != DELIMITER {
            let p = r.last().push(s.last());
            assert forall|j: int| 0 <= j < p.len() implies p[j] != DELIMITER by {
                if j < p.len() - 1 {
                    assert(p[j] == r.last()[j]);
                }
            }
        }
    }
}

proof fn lemma_clean_entries(p: Seq<Seq<char>>)
    requires
        forall|i: int| 0 <= i < p.len() ==> !(#[trigger] p[i]).contains(DELIMITER),
    ensures
        forall|i: int| 0 <= i < clean_entries(p).len() ==> is_clean_entry(
            #[trigger] clean_entries(p)[i],
        ),
    decreases p.len(),
{
    if p.len() > 0 {
        let r = clean_entries(p.drop_last());
        let t = trim(p.last());
        lemma_clean_entries(p.drop_last());
        assert(!p[p.len() - 1].contains(DELIMITER));
        lemma_trim_idempotent(p.last());
        if t.len() > 0 {
            assert(is_clean_entry(t));
            assert forall|i: int| 0 <= i < r.push(t).len() implies is_clean_entry(
                #[trigger] r.push(t)[i],
            ) by {
                if i < r.len() {
                    assert(r.push(t)[i] == r[i]);
                }
            }
        }
    }
}

/// Every entry of a parsed list is clean.
pub proof fn lemma_parse_entries_clean(s: Seq<char>)
    ensures
        forall|i: int| 0 <= i < parse_list(s).len() ==> is_clean_entry(
            #[trigger] parse_list(s)[i],
        ),
{
    lemma_split_pieces_clean(s);
    lemma_clean_entries(split_pieces(s));
}

proof fn lemma_split_no_delimiter(s: Seq<char>)
    requires
        !s.contains(DELIMITER),
    ensures
        split_pieces(s) == seq![s],
    decreases s.len(),
{
    if s.len() == 0 {
        assert(s =~= Seq::<char>::empty());
    } else {
        let d = s.drop_last();
        assert(!d.contains(DELIMITER)) by {
            if d.contains(DELIMITER) {
                let k = choose|k: int| 0 <= k < d.len() && d[k] == DELIMITER;
                assert(s[k] == DELIMITER);
            }
        }
        lemma_split_no_delimiter(d);
        assert(s[s.len() - 1] != DELIMITER);
        assert(d.push(s.last()) =~= s);
        assert(seq![d].update(0, d.push(s.last())) =~= seq![s]);
    }
}

proof fn lemma_split_append(a: Seq<char>, x: Seq<char>)
    requires
        !x.contains(DELIMITER),
    ensures
        split_pieces(a.push(DELIMITER) + x) == split_pieces(a).push(x),
    decreases x.len(),
{
    let y = a.push(DELIMITER) + x;
    if x.len() == 0 {
        assert(y =~= a.push(DELIMITER));
        assert(y.drop_last() =~= a);
        assert(y.last() == DELIMITER);
        assert(x =~= Seq::<char>::empty());
    } else {
        let d = x.drop_last();
        assert(!d.contains(DELIMITER)) by {
            if d.contains(DELIMITER) {
                let k = choose|k: int| 0 <= k < d.len() && d[k] == DELIMITER;
                assert(x[k] == DELIMITER);
            }
        }
        lemma_split_append(a, d);
        assert(y.drop_last() =~= a.push(DELIMITER) + d);
        assert(y.last() == x[x.len() - 1]);
        assert(d.push(x.last()) =~= x);
        let r = split_pieces(a).push(d);
        assert(r.update(r.len() - 1, r.last().push(y.last())) =~= split_pieces(a).push(x));
    }
}

/// Joining a list of clean entries and parsing the result gives the list
/// back.
pub proof fn lemma_parse_join(l: Seq<Seq<char>>)
    requires
        forall|i: int| 0 <= i < l.len() ==> is_clean_entry(#[trigger] l[i]),
    ensures
        parse_list(join_list(l)) == l,
    decreases l.len(),
{
    if l.len() == 0 {
        let e = Seq::<char>::empty();
        assert(join_list(l) == e);
        assert(split_pieces(e) == seq![e]);
        assert(trim_start(e) == e);
        assert(trim(e) == e);
        assert(seq![e].drop_last() =~= Seq::<Seq<char>>::empty());
        assert(seq![e].last() == e);
        assert(clean_entries(Seq::<Seq<char>>::empty()) == Seq::<Seq<char>>::empty());
        assert(clean_entries(seq![e]) =~= l);
    } else if l.len() == 1 {
        let x = l[0];
        assert(is_clean_entry(x));
        assert(join_list(l) == x);
        lemma_split_no_delimiter(x);
        assert(seq![x].drop_last() =~= Seq::<Seq<char>>::empty());
        assert(seq![x].last() == x);
        assert(clean_entries(Seq::<Seq<char>>::empty()) == Seq::<Seq<char>>::empty());
        assert(clean_entries(seq![x]) =~= l);
    } else {
        let x = l.last();
        let j = join_list(l.drop_last());
        lemma_parse_join(l.drop_last());
        lemma_split_append(j, x);
        let p = split_pieces(j).push(x);
        assert(p.drop_last() =~= split_pieces(j));
        assert(clean_entries(p) =~= l);
    }
}

/// The number of bytes in the UTF-8 form of `s`.
pub open spec fn utf8_len(s: Seq<char>) -> nat {
    encode_utf8(s).len()
}

proof fn lemma_utf8_len_concat(a: Seq<char>, b: Seq<char>)
    ensures
        encode_utf8(a + b) == encode_utf8(a) + encode_utf8(b),
        utf8_len(a + b) == utf8_len(a) + utf8_len(b),
    decreases a.len(),
{
    if a.len() == 0 {
        assert(a + b =~= b);
        assert(encode_utf8(a) + encode_utf8(b) =~= encode_utf8(b));
    } else {
        lemma_utf8_len_concat(a.drop_first(), b);
        assert((a + b).drop_first() =~= a.drop_first() + b);
        assert((a + b)[0] == a[0]);
        assert(encode_utf8(a + b) =~= encode_utf8(a) + encode_utf8(b));
    }
}

proof fn lemma_utf8_len_subrange(s: Seq<char>, i: int, j: int)
    requires
        0 <= i <= j <= s.len(),
    ensures
        utf8_len(s.subrange(i, j)) <= utf8_len(s),
{
    let a = s.subrange(0, i);
    let m = s.subrange(i, j);
    let z = s.subrange(j, s.len() as int);
    assert(s =~= a + m + z);
    lemma_utf8_len_concat(a, m);
    lemma_utf8_len_concat(a + m, z);
}

proof fn lemma_utf8_len_trim(s: Seq<char>)
    ensures
        utf8_len(trim(s)) <= utf8_len(s),
{
    let u = trim_start(s);
    lemma_trim_start_suffix(s);
    lemma_trim_end_prefix(u);
    lemma_utf8_len_subrange(s, s.len() - u.len(), s.len() as int);
    lemma_utf8_len_subrange(u, 0, trim(s).len() as int);
}

/// The pieces joined back with the delimiter, untrimmed.
spec fn raw_join(p: Seq<Seq<char>>) -> Seq<char>
    decreases p.len(),
{
    if p.len() == 0 {
        Seq::empty()
    } else if p.len() == 1 {
        p[0]
    } else {
        raw_join(p.drop_last()).push(DELIMITER) + p.last()
    }
}

proof fn lemma_raw_join_split(s: Seq<char>)
    ensures
        raw_join(split_pieces(s)) == s,
    decreases s.len(),
{
    if s.len() == 0 {
        assert(s =~= Seq::<char>::empty());
    } else {
        let d = s.drop_last();
        let r = split_pieces(d);
        lemma_raw_join_split(d);
        lemma_split_len(d);
        if s.last() == DELIMITER {
            let p = r.push(Seq::empty());
            assert(p.drop_last() =~= r);
            assert(raw_join(p) =~= s);
        } else {
            let c = s.last();
            let p = r.update(r.len() - 1, r.last().push(c));
            if r.len() == 1 {
                assert(raw_join(p) =~= s);
            } else {
                assert(p.drop_last() =~= r.drop_last());
                assert(p.last() == r.last().push(c));
                assert(raw_join(r) == raw_join(r.drop_last()).push(DELIMITER) + r.last());
                assert(s =~= d.push(c));
                assert(raw_join(p) == raw_join(r.drop_last()).push(DELIMITER) + r.last().push(c));
                assert(raw_join(p) =~= s);
            }
        }
    }
}

proof fn lemma_join_clean_shorter(p: Seq<Seq<char>>)
    requires
        p.len() >= 1,
    ensures
        utf8_len(join_list(clean_entries(p))) <= utf8_len(raw_join(p)),
    decreases p.len(),
{
    let q = p.drop_last();
    let x = p.last();
    let t = trim(x);
    let cq = clean_entries(q);
    lemma_trim_idempotent(x);
    lemma_utf8_len_trim(x);
    if p.len() == 1 {
        assert(q =~= Seq::<Seq<char>>::empty());
        assert(raw_join(p) == x);
        if t.len() > 0 {
            assert(cq.push(t) =~= seq![t]);
        }
    } else {
        lemma_join_clean_shorter(q);
        let rq = raw_join(q);
        lemma_utf8_len_concat(rq, seq![DELIMITER]);
        lemma_utf8_len_concat(rq.push(DELIMITER), x);
        assert(rq + seq![DELIMITER] =~= rq.push(DELIMITER));
        if t.len() > 0 {
            let c = cq.push(t);
            if cq.len() == 0 {
                assert(c =~= seq![t]);
            } else {
                let jq = join_list(cq);
                assert(c.drop_last() =~= cq);
                lemma_utf8_len_concat(jq, seq![DELIMITER]);
                lemma_utf8_len_concat(jq.push(DELIMITER), t);
                assert(jq + seq![DELIMITER] =~= jq.push(DELIMITER));
            }
        }
    }
}

/// Parsing a delimited string and joining the entries again never gives
/// a longer UTF-8 form.
pub proof fn lemma_join_parse_shorter(s: Seq<char>)
    ensures
        utf8_len(join_list(parse_list(s))) <= utf8_len(s),
{
    lemma_split_len(s);
    lemma_raw_join_split(s);
    lemma_join_clean_shorter(split_pieces(s));
}

/// Splits the delimited string `s` into its trimmed, non-empty entries.
pub fn parse_bypass_list(s: &str) -> (r: Vec<String>)
    ensures
        strings_view(r@) == parse_list(s@),
{
    let chars = chars_of(s);
    let n = chars.len();
    let mut out: Vec<String> = Vec::new();
    let mut start: usize = 0;
    let mut i: usize = 0;
    let ghost mut done: Seq<Seq<char>> = Seq::empty();
    assert(s@.subrange(0, 0) =~= Seq::<char>::empty());
    while i < n
        invariant
            chars@ == s@,
            n == chars@.len(),
            start <= i <= n,
            split_pieces(s@.subrange(0, i as int)) == done.push(
                s@.subrange(start as int, i as int),
            ),
            strings_view(out@) == clean_entries(done),
        decreases n - i,
    {
        let ghost pre = s@.subrange(0, i as int);
        let ghost next = s@.subrange(0, i + 1);
        assert(next.drop_last() =~= pre);
        if chars[i] == DELIMITER {
            let piece = trimmed_range(s, &chars, start, i);
            let ghost old_done = done;
            proof {
                done = done.push(s@.subrange(start as int, i as int));
                assert(done.drop_last() =~= old_done);
            }
            if !piece.as_str().is_empty() {
                let ghost before = out@;
                out.push(piece);
                assert(strings_view(out@) =~= strings_view(before).push(piece@));
            }
            start = i + 1;
            assert(s@.subrange(start as int, i + 1) =~= Seq::<char>::empty());
        } else {
            assert(s@.subrange(start as int, i + 1) =~= s@.subrange(start as int, i as int).push(
                chars@[i as int],
            ));
        }
        i = i + 1;
    }
    assert(s@.subrange(0, n as int) =~= s@);
    let piece = trimmed_range(s, &chars, start, n);
    let ghost all = done.push(s@.subrange(start as int, n as int));
    assert(all.drop_last() =~= done);
    if !piece.as_str().is_empty() {
        let ghost before = out@;
        out.push(piece);
        assert(strings_view(out@) =~= strings_view(before).push(piece@));
    }
    out
}

/// Trims each entry and joins them with the delimiter.
pub fn join_bypass_list(list: &Vec<String>) -> (r: String)
    ensures
        r@ == join_list(strings_view(list@)),
{
    let mut out = String::new();
    let mut i: usize = 0;
    let ghost l = strings_view(list@);
    while i < list.len()
        invariant
            i <= list@.len(),
            l == strings_view(list@),
            out@ == join_list(l.subrange(0, i as int)),
        decreases list@.len() - i,
    {
        let ghost before = out@;
        if i > 0 {
            proof {
                reveal_strlit(";");
            }
            out.append(";");
        }
        let piece = trim_str(list[i].as_str());
        out.append(piece.as_str());
        assert(l.subrange(0, i + 1).drop_last() =~= l.subrange(0, i as int));
        assert(out@ =~= join_list(l.subrange(0, i + 1)));
        i = i + 1;
    }
    assert(l.subrange(0, list@.len() as int) =~= l);
    out
}

} // verus!
