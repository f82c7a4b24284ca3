//! XML escaping: `escape_xml` and `unescape_xml`, and the law that one
//! undoes the other.

use vstd::prelude::*;
use crate::text::chars_of;

verus! {

/// The entity that stands for one of the five XML special characters.
pub open spec fn entity(c: char) -> Seq<char> {
    if c == '&' {
        seq!['&', 'a', 'm', 'p', ';']
    } else if c == '<' {
        seq!['&', 'l', 't', ';']
    } else if c == '>' {
        seq!['&', 'g', 't', ';']
    } else if c == '"' {
        seq!['&', 'q', 'u', 'o', 't', ';']
    } else {
        seq!['&', 'a', 'p', 'o', 's', ';']
    }
}

/// The five characters that `escape_xml` replaces.
pub open spec fn special_chars() -> Set<char> {
    set!['&', '<', '>', '"', '\'']
}

/// `s` with each character of `e` replaced by its entity.
pub open spec fn escape_in(s: Seq<char>, e: Set<char>) -> Seq<char>
    decreases s.len(),
{
    if s.len() == 0 {
        Seq::empty()
    } else {
        (if e.contains(s[0]) {
            entity(s[0])
        } else {
            seq![s[0]]
        }) + escape_in(s.drop_first(), e)
    }
}

/// What `escape_xml` returns: `&`, `<`, `>`, `"` and `'` replaced by
/// their entities.
pub open spec fn xml_escaped(s: Seq<char>) -> Seq<char> {
    escape_in(s, special_chars())
}

/// `s` with every occurrence of `pat`, scanned left to right without
/// overlap, replaced by `rep`: what `str::replace` returns.
pub open spec fn replace_all(s: Seq<char>, pat: Seq<char>, rep: Seq<char>) -> Seq<char>
    decreases s.len(),
{
    if s.len() == 0 || pat.len() == 0 {
        s
    } else if pat.len() <= s.len() && s.take(pat.len() as int) == pat {
        rep + replace_all(s.skip(pat.len() as int), pat, rep)
    } else {
        seq![s[0]] + replace_all(s.drop_first(), pat, rep)
    }
}

/// What `unescape_xml` returns: the entities for `"`, `'`, `<`, `>` and
/// `&` replaced, in that order, by their characters.
pub open spec fn xml_unescaped(s: Seq<char>) -> Seq<char> {
    replace_all(
        replace_all(
            replace_all(
                replace_all(replace_all(s, entity('"'), seq!['"']), entity('\''), seq!['\'']),
                entity('<'),
                seq!['<'],
            ),
            entity('>'),
            seq!['>'],
        ),
        entity('&'),
        seq!['&'],
    )
}

fn push_entity(out: &mut Vec<char>, c: char)
    requires
        special_chars().contains(c),
    ensures
        final(out)@ == old(out)@ + entity(c),
{
    let ghost o = out@;
    if c == '&' {
        out.push('&');
        out.push('a');
        out.push('m');
        out.push('p');
        out.push(';');
    } else if c == '<' {
        out.push('&');
        out.push('l');
        out.push('t');
        out.push(';');
    } else if c == '>' {
        out.push('&');
        out.push('g');
        out.push('t');
        out.push(';');
    } else if c == '"' {
        out.push('&');
        out.push('q');
        out.push('u');
        out.push('o');
        out.push('t');
        out.push(';');
    } else {
        out.push('&');
        out.push('a');
        out.push('p');
        out.push('o');
        out.push('s');
        out.push(';');
    }
    assert(out@ =~= o + entity(c));
}

proof fn lemma_escape_in_push(s: Seq<char>, c: char, e: Set<char>)
    ensures
        escape_in(s.push(c), e) == escape_in(s, e) + (if e.contains(c) {
            entity(c)
        } else {
            seq![c]
        }),
    decreases s.len(),
{
    if s.len() == 0 {
        assert(s.push(c).drop_first() =~= Seq::<char>::empty());
        assert(s.push(c)[0] == c);
        assert(escape_in(Seq::<char>::empty(), e) == Seq::<char>::empty());
        assert(escape_in(s.push(c), e) =~= escape_in(s, e) + (if e.contains(c) {
            entity(c)
        } else {
            seq![c]
        }));
    } else {
        lemma_escape_in_push(s.drop_first(), c, e);
        assert(s.push(c).drop_first() =~= s.drop_first().push(c));
        assert(s.push(c)[0] == s[0]);
        assert(escape_in(s.push(c), e) =~= escape_in(s, e) + (if e.contains(c) {
            entity(c)
        } else {
            seq![c]
        }));
    }
}

/// The characters of `s` with `&`, `<`, `>`, `"` and `'` replaced by their
/// entities.
pub fn escape_chars(s: &[char]) -> (r: Vec<char>)
    ensures
        r@ == xml_escaped(s@),
{
    let mut out: Vec<char> = Vec::new();
    let mut i: usize = 0;
    while i < s.len()
        invariant
            i <= s.len(),
            out@ == xml_escaped(s@.take(i as int)),
        decreases s.len() - i,
    {
        let c = s[i];
        proof {
            lemma_escape_in_push(s@.take(i as int), c, special_chars());
            assert(s@.take(i as int).push(c) =~= s@.take((i + 1) as int));
        }
        if c == '&' || c == '<' || c == '>' || c == '"' || c == '\'' {
            push_entity(&mut out, c);
        } else {
            out.push(c);
        }
        i = i + 1;
    }
    assert(s@.take(s.len() as int) =~= s@);
    out
}

/// Escapes XML special characters.
pub fn escape_xml(s: &str) -> (r: String)
    ensures
        r@ == xml_escaped(s@),
{
    let v = chars_of(s);
    let e = escape_chars(v.as_slice());
    crate::text::string_from_chars(e.as_slice())
}

proof fn lemma_replace_all_skip_step(s: Seq<char>, pat: Seq<char>, rep: Seq<char>, i: int)
    requires
        0 <= i < s.len(),
        pat.len() > 0,
    ensures
        pat.len() <= s.len() - i && s.skip(i).take(pat.len() as int) == pat ==> replace_all(s.skip(i), pat, rep)
            == rep + replace_all(s.skip(i + pat.len()), pat, rep),
        !(pat.len() <= s.len() - i && s.skip(i).take(pat.len() as int) == pat) ==> replace_all(s.skip(i), pat, rep)
            == seq![s[i]] + replace_all(s.skip(i + 1), pat, rep),
{
    if pat.len() <= s.len() - i {
        assert(s.skip(i).skip(pat.len() as int) =~= s.skip(i + pat.len()));
    }
    assert(s.skip(i).drop_first() =~= s.skip(i + 1));
}

/// Replaces every occurrence of `pat` in `s`, scanned left to right without
/// overlap, by `rep`.
pub fn replace_chars(s: &Vec<char>, pat: &Vec<char>, rep: &Vec<char>) -> (r: Vec<char>)
    requires
        pat.len() > 0,
    ensures
        r@ == replace_all(s@, pat@, rep@),
{
    let mut out: Vec<char> = Vec::new();
    let mut i: usize = 0;
    assert(s@.skip(0) =~= s@);
    assert(out@ + replace_all(s@.skip(0), pat@, rep@) =~= replace_all(s@, pat@, rep@));
    while i < s.len()
        invariant
            i <= s.len(),
            pat.len() > 0,
            out@ + replace_all(s@.skip(i as int), pat@, rep@) == replace_all(s@, pat@, rep@),
        decreases s.len() - i,
    {
        let mut matches = pat.len() <= s.len() - i;
        let mut k: usize = 0;
        while matches && k < pat.len()
            invariant
                i < s.len(),
                k <= pat.len(),
                matches ==> pat.len() <= s.len() - i,
                matches ==> forall|j: int| 0 <= j < k ==> s@[i + j] == pat@[j],
                !matches ==> !(pat.len() <= s.len() - i && s@.skip(i as int).take(pat.len() as int) == pat@),
            decreases pat.len() - k + (if matches { 1int } else { 0int }),
        {
            if s[i + k] != pat[k] {
                matches = false;
                assert(s@.skip(i as int).take(pat.len() as int)[k as int] != pat@[k as int]);
            } else {
                k = k + 1;
            }
        }
        proof {
            lemma_replace_all_skip_step(s@, pat@, rep@, i as int);
            if matches {
                assert(s@.skip(i as int).take(pat.len() as int) =~= pat@);
            }
        }
        if matches {
            let ghost before = out@;
            let mut j: usize = 0;
            while j < rep.len()
                invariant
                    j <= rep.len(),
                    out@ == before + rep@.take(j as int),
                decreases rep.len() - j,
            {
                out.push(rep[j]);
                assert(before + rep@.take((j + 1) as int) =~= (before + rep@.take(j as int)).push(rep@[j as int]));
                j = j + 1;
            }
            assert(rep@.take(rep.len() as int) =~= rep@);
            assert(before + (rep@ + replace_all(s@.skip(i + pat.len()), pat@, rep@)) =~= out@ + replace_all(s@.skip(i + pat.len()), pat@, rep@));
            i = i + pat.len();
        } else {
            let ghost before = out@;
            out.push(s[i]);
            assert(before + (seq![s@[i as int]] + replace_all(s@.skip(i + 1), pat@, rep@)) =~= out@ + replace_all(s@.skip(i + 1), pat@, rep@));
            i = i + 1;
        }
    }
    assert(s@.skip(s.len() as int) =~= Seq::<char>::empty());
    assert(out@ + Seq::<char>::empty() =~= out@);
    out
}

fn single(c: char) -> (v: Vec<char>)
    ensures
        v@ == seq![c],
{
    let mut v: Vec<char> = Vec::new();
    v.push(c);
    assert(v@ =~= seq![c]);
    v
}

fn entity_vec(c: char) -> (v: Vec<char>)
    requires
        special_chars().contains(c),
    ensures
        v@ == entity(c),
{
    let mut v: Vec<char> = Vec::new();
    push_entity(&mut v, c);
    assert(Seq::<char>::empty() + entity(c) =~= entity(c));
    v
}

/// Replaces the XML entities for `"`, `'`, `<`, `>` and `&` (in that order)
/// by their characters.
pub fn unescape_xml(s: &str) -> (r: String)
    ensures
        r@ == xml_unescaped(s@),
{
    let v = chars_of(s);
    let v1 = replace_chars(&v, &entity_vec('"'), &single('"'));
    let v2 = replace_chars(&v1, &entity_vec('\''), &single('\''));
    let v3 = replace_chars(&v2, &entity_vec('<'), &single('<'));
    let v4 = replace_chars(&v3, &entity_vec('>'), &single('>'));
    let v5 = replace_chars(&v4, &entity_vec('&'), &single('&'));
    crate::text::string_from_chars(v5.as_slice())
}

proof fn lemma_replace_prefix_free(t: Seq<char>, u: Seq<char>, pat: Seq<char>, rep: Seq<char>)
    requires
        pat.len() > 0,
        forall|i: int| 0 <= i < t.len() ==> t[i] != pat[0],
    ensures
        replace_all(t + u, pat, rep) == t + replace_all(u, pat, rep),
    decreases t.len(),
{
    if t.len() > 0 {
        let tu = t + u;
        assert(tu[0] == t[0]);
        if pat.len() <= tu.len() && tu.take(pat.len() as int) == pat {
            assert(tu.take(pat.len() as int)[0] == tu[0]);
        }
        assert(tu.drop_first() =~= t.drop_first() + u);
        lemma_replace_prefix_free(t.drop_first(), u, pat, rep);
        assert(seq![t[0]] + (t.drop_first() + replace_all(u, pat, rep)) =~= t + replace_all(u, pat, rep));
    } else {
        assert(t + u =~= u);
        assert(t + replace_all(u, pat, rep) =~= replace_all(u, pat, rep));
    }
}

proof fn lemma_entity_distinct(x: char, c: char)
    requires
        special_chars().contains(x),
        special_chars().contains(c),
        x != c,
    ensures
        entity(x).len() >= 4,
        entity(c).len() >= 4,
        entity(x)[1] != entity(c)[1] || entity(x)[2] != entity(c)[2],
{
    assert(x == '&' || x == '<' || x == '>' || x == '"' || x == '\'');
    assert(c == '&' || c == '<' || c == '>' || c == '"' || c == '\'');
}

proof fn lemma_escape_in_none(s: Seq<char>)
    ensures
        escape_in(s, Set::<char>::empty()) == s,
    decreases s.len(),
{
    if s.len() > 0 {
        lemma_escape_in_none(s.drop_first());
        assert(seq![s[0]] + s.drop_first() =~= s);
    }
}

/// One pass of `unescape_xml` turns back the entities of one character `c`.
proof fn lemma_unescape_pass(s: Seq<char>, e: Set<char>, c: char)
    requires
        e.contains('&'),
        e.subset_of(special_chars()),
        e.contains(c),
        c == '&' ==> e =~= set!['&'],
    ensures
        replace_all(escape_in(s, e), entity(c), seq![c]) == escape_in(s, e.remove(c)),
    decreases s.len(),
{
    let pat = entity(c);
    if s.len() == 0 {
        assert(escape_in(s, e) =~= Seq::<char>::empty());
        assert(escape_in(s, e.remove(c)) =~= Seq::<char>::empty());
    } else {
        let x = s[0];
        let rest = s.drop_first();
        let r = escape_in(rest, e);
        lemma_unescape_pass(rest, e, c);
        if x == c {
            let w = entity(c) + r;
            assert(w.take(pat.len() as int) =~= pat);
            assert(w.skip(pat.len() as int) =~= r);
            assert(escape_in(s, e) == w);
            assert(!e.remove(c).contains(x));
        } else if e.contains(x) {
            let w = entity(x) + r;
            assert(escape_in(s, e) == w);
            assert(special_chars().contains(x));
            lemma_entity_distinct(x, c);
            assert(!(pat.len() <= w.len() && w.take(pat.len() as int) == pat)) by {
                if pat.len() <= w.len() && w.take(pat.len() as int) == pat {
                    assert(w.take(pat.len() as int)[1] == w[1]);
                    assert(w.take(pat.len() as int)[2] == w[2]);
                    assert(w[1] == pat[1]);
                    assert(w[2] == pat[2]);
                    assert(w[1] == entity(x)[1]);
                    assert(w[2] == entity(x)[2]);
                }
            }
            let tail = entity(x).drop_first();
            assert(w.drop_first() =~= tail + r);
            assert(w[0] == '&');
            lemma_replace_prefix_free(tail, r, pat, seq![c]);
            assert(seq!['&'] + (tail + replace_all(r, pat, seq![c])) =~= entity(x) + replace_all(r, pat, seq![c]));
            assert(e.remove(c).contains(x));
        } else {
            assert(x != '&');
            let w = seq![x] + r;
            assert(escape_in(s, e) == w);
            lemma_replace_prefix_free(seq![x], r, pat, seq![c]);
            assert(!e.remove(c).contains(x));
        }
    }
}

/// `unescape_xml` undoes `escape_xml`: for every string `s`,
/// Escaped text holds no `<`.
pub proof fn lemma_escaped_has_no_lt(s: Seq<char>)
    ensures
        forall|i: int| 0 <= i < xml_escaped(s).len() ==> #[trigger] xml_escaped(s)[i] != '<',
    decreases s.len(),
{
    if s.len() > 0 {
        lemma_escaped_has_no_lt(s.drop_first());
        let head = if special_chars().contains(s[0]) {
            entity(s[0])
        } else {
            seq![s[0]]
        };
        let rest = xml_escaped(s.drop_first());
        assert(xml_escaped(s) == head + rest);
        assert forall|i: int| 0 <= i < xml_escaped(s).len() implies #[trigger] xml_escaped(s)[i] != '<' by {
            if i >= head.len() {
                assert(xml_escaped(s)[i] == rest[i - head.len()]);
            }
        }
    }
}

/// Escaping brings in no capital letter: the entities are written in
/// lower case.
pub proof fn lemma_escaped_no_new_capital(s: Seq<char>, c: char)
    requires
        'A' <= c <= 'Z',
        !s.contains(c),
    ensures
        !xml_escaped(s).contains(c),
    decreases s.len(),
{
    if s.len() > 0 {
        assert(!s.drop_first().contains(c)) by {
            if s.drop_first().contains(c) {
                let k = choose|k: int| 0 <= k < s.drop_first().len() && s.drop_first()[k] == c;
                assert(s[k + 1] == c);
            }
        }
        lemma_escaped_no_new_capital(s.drop_first(), c);
        let head = if special_chars().contains(s[0]) {
            entity(s[0])
        } else {
            seq![s[0]]
        };
        let rest = xml_escaped(s.drop_first());
        assert(xml_escaped(s) == head + rest);
        assert(s[0] != c);
        assert forall|i: int| 0 <= i < xml_escaped(s).len() implies xml_escaped(s)[i] != c by {
            if i >= head.len() {
                assert(xml_escaped(s)[i] == rest[i - head.len()]);
            }
        }
    }
}

/// Text without special characters is its own escaping.
pub proof fn lemma_escaped_plain(s: Seq<char>)
    requires
        forall|i: int| 0 <= i < s.len() ==> !special_chars().contains(#[trigger] s[i]),
    ensures
        xml_escaped(s) == s,
    decreases s.len(),
{
    if s.len() > 0 {
        assert forall|i: int| 0 <= i < s.drop_first().len() implies !special_chars().contains(
            #[trigger] s.drop_first()[i],
        ) by {
            assert(s.drop_first()[i] == s[i + 1]);
        }
        lemma_escaped_plain(s.drop_first());
        assert(!special_chars().contains(s[0]));
        assert(seq![s[0]] + s.drop_first() =~= s);
    }
}

/// `unescape_xml(escape_xml(s)) == s`.
pub proof fn law_unescape_escape(s: Seq<char>)
    ensures
        xml_unescaped(xml_escaped(s)) == s,
{
    let e0 = special_chars();
    let e1 = e0.remove('"');
    let e2 = e1.remove('\'');
    let e3 = e2.remove('<');
    let e4 = e3.remove('>');
    let e5 = e4.remove('&');
    lemma_unescape_pass(s, e0, '"');
    lemma_unescape_pass(s, e1, '\'');
    lemma_unescape_pass(s, e2, '<');
    lemma_unescape_pass(s, e3, '>');
    assert(e4 =~= set!['&']);
    lemma_unescape_pass(s, e4, '&');
    assert(e5 =~= Set::<char>::empty());
    lemma_escape_in_none(s);
}

} // verus!
