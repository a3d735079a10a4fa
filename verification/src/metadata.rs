//! Bibliographic metadata attached to nodes created from a source document.
//!
//! The values are produced by an external metadata-extraction collaborator;
//! the core only stores and edits them.

use vstd::prelude::*;

verus! {

/// Metadata of a source document.
#[derive(Clone, Debug)]
pub struct Metadata {
    pub title: String,
    pub keywords: Vec<String>,
    pub authors: Vec<String>,
    pub date: String,
    pub path: String,
}

/// The mathematical value of a [`Metadata`].
pub ghost struct MetadataView {
    pub title: Seq<char>,
    pub keywords: Seq<Seq<char>>,
    pub authors: Seq<Seq<char>>,
    pub date: Seq<char>,
    pub path: Seq<char>,
}

/// The sequence of string values behind a sequence of `String`s.
pub open spec fn strings_view(v: Seq<String>) -> Seq<Seq<char>> {
    v.map_values(|s: String| s@)
}

impl View for Metadata {
    type V = MetadataView;

    open spec fn view(&self) -> MetadataView {
        MetadataView {
            title: self.title@,
            keywords: strings_view(self.keywords@),
            authors: strings_view(self.authors@),
            date: self.date@,
            path: self.path@,
        }
    }
}


/// ASCII whitespace, as the list editor trims it.
pub open spec fn is_space(c: char) -> bool {
    c == ' ' || c == '\t' || c == '\n' || c == '\r'
}

/// `s` without its leading whitespace.
pub open spec fn trim_front(s: Seq<char>) -> Seq<char>
    decreases s.len(),
{
    if s.len() > 0 && is_space(s[0]) {
        trim_front(s.drop_first())
    } else {
        s
    }
}

/// `s` without its trailing whitespace.
pub open spec fn trim_back(s: Seq<char>) -> Seq<char>
    decreases s.len(),
{
    if s.len() > 0 && is_space(s.last()) {
        trim_back(s.drop_last())
    } else {
        s
    }
}

/// `s` without leading and trailing whitespace.
pub open spec fn trimmed(s: Seq<char>) -> Seq<char> {
    trim_back(trim_front(s))
}

/// `s` split at every comma, commas removed, order kept; always at least
/// one (possibly empty) field.
pub open spec fn split_commas(s: Seq<char>) -> Seq<Seq<char>>
    decreases s.len(),
{
    if s.len() == 0 {
        seq![Seq::<char>::empty()]
    } else {
        let rest = split_commas(s.drop_first());
        if s[0] == ',' {
            seq![Seq::<char>::empty()] + rest
        } else {
            seq![seq![s[0]] + rest[0]] + rest.drop_first()
        }
    }
}

/// Each field trimmed, empty fields dropped, order kept.
pub open spec fn tidy_fields(fs: Seq<Seq<char>>) -> Seq<Seq<char>>
    decreases fs.len(),
{
    if fs.len() == 0 {
        seq![]
    } else {
        let t = trimmed(fs[0]);
        let rest = tidy_fields(fs.drop_first());
        if t.len() > 0 {
            seq![t] + rest
        } else {
            rest
        }
    }
}

/// The comma-separated entries of `s`: split at commas, trimmed of
/// whitespace, empty entries dropped, order kept.
pub open spec fn comma_fields(s: Seq<char>) -> Seq<Seq<char>> {
    tidy_fields(split_commas(s))
}

/// Whitespace test.
fn is_space_char(c: char) -> (r: bool)
    ensures
        r == is_space(c),
{
    c == ' ' || c == '\t' || c == '\n' || c == '\r'
}

/// Trimming removes exactly the leading whitespace run.
proof fn lemma_trim_front_at(s: Seq<char>, a: int)
    requires
        0 <= a <= s.len(),
        forall|j: int| 0 <= j < a ==> is_space(#[trigger] s[j]),
        a < s.len() ==> !is_space(s[a]),
    ensures
        trim_front(s) == s.skip(a),
    decreases a,
{
    if a == 0 {
        assert(s.skip(0) =~= s);
    } else {
        assert(is_space(s[0]));
        lemma_trim_front_at(s.drop_first(), a - 1);
        assert(s.drop_first().skip(a - 1) =~= s.skip(a));
    }
}

/// Trimming removes exactly the trailing whitespace run.
proof fn lemma_trim_back_at(s: Seq<char>, b: int)
    requires
        0 <= b <= s.len(),
        forall|j: int| b <= j < s.len() ==> is_space(#[trigger] s[j]),
        b > 0 ==> !is_space(s[b - 1]),
    ensures
        trim_back(s) == s.take(b),
    decreases s.len() - b,
{
    if b == s.len() {
        assert(s.take(b) =~= s);
    } else {
        assert(is_space(s[s.len() - 1]));
        assert(forall|j: int|
            b <= j < s.drop_last().len() ==> is_space(#[trigger] s.drop_last()[j])) by {
            assert(forall|j: int|
                0 <= j < s.drop_last().len() ==> #[trigger] s.drop_last()[j] == s[j]);
        }
        lemma_trim_back_at(s.drop_last(), b);
        assert(s.drop_last().take(b) =~= s.take(b));
    }
}

/// `v` with leading and trailing whitespace removed.
fn trim_chars(v: &Vec<char>) -> (r: Vec<char>)
    ensures
        r@ == trimmed(v@),
{
    let mut a: usize = 0;
    while a < v.len() && is_space_char(v[a])
        invariant
            a <= v@.len(),
            forall|j: int| 0 <= j < a ==> is_space(#[trigger] v@[j]),
        decreases v@.len() - a,
    {
        a = a + 1;
    }
    proof {
        lemma_trim_front_at(v@, a as int);
    }
    let ghost g = v@.skip(a as int);
    let mut b: usize = v.len();
    while b > a && is_space_char(v[b - 1])
        invariant
            a <= b <= v@.len(),
            forall|j: int| b <= j < v@.len() ==> is_space(#[trigger] v@[j]),
        decreases b,
    {
        b = b - 1;
    }
    proof {
        assert(forall|j: int|
            b - a <= j < g.len() ==> is_space(#[trigger] g[j])) by {
            assert(forall|j: int| 0 <= j < g.len() ==> #[trigger] g[j] == v@[a + j]);
        }
        if b > a {
            assert(g[b - a - 1] == v@[b - 1]);
        }
        lemma_trim_back_at(g, b - a);
    }
    let mut out: Vec<char> = Vec::new();
    let mut k: usize = a;
    while k < b
        invariant
            a <= k <= b <= v@.len(),
            out@ == v@.subrange(a as int, k as int),
        decreases b - k,
    {
        out.push(v[k]);
        proof {
            assert(v@.subrange(a as int, k as int + 1) =~= v@.subrange(a as int, k as int).push(
                v@[k as int],
            ));
        }
        k = k + 1;
    }
    proof {
        assert(out@ =~= g.take(b - a));
    }
    out
}

/// The character sequences behind a vector of character vectors.
pub open spec fn chars_vecs_view(fs: Seq<Vec<char>>) -> Seq<Seq<char>> {
    fs.map_values(|f: Vec<char>| f@)
}

/// Parse a comma-separated list the way the metadata editor reads author
/// and keyword text: split at commas, trim whitespace, drop empty
/// entries, keep the order.
pub fn parse_name_list(s: &str) -> (r: Vec<String>)
    ensures
        strings_view(r@) == comma_fields(s@),
{
    let cs = crate::codec::str_to_chars(s);
    let mut fields: Vec<Vec<char>> = Vec::new();
    fields.push(Vec::new());
    proof {
        assert(cs@.skip(cs@.len() as int) =~= Seq::<char>::empty());
        assert(chars_vecs_view(fields@) =~= split_commas(cs@.skip(cs@.len() as int)));
    }
    let mut i: usize = cs.len();
    while i > 0
        invariant
            i <= cs@.len(),
            cs@ == s@,
            fields@.len() >= 1,
            chars_vecs_view(fields@) == split_commas(cs@.skip(i as int)),
        decreases i,
    {
        i = i - 1;
        let c = cs[i];
        let ghost pre = chars_vecs_view(fields@);
        proof {
            assert(cs@.skip(i as int)[0] == cs@[i as int]);
            assert(cs@.skip(i as int).drop_first() =~= cs@.skip(i as int + 1));
        }
        if c == ',' {
            fields.insert(0, Vec::new());
            proof {
                assert(chars_vecs_view(fields@) =~= seq![Seq::<char>::empty()] + pre);
            }
        } else {
            let mut f0 = fields.remove(0);
            f0.insert(0, c);
            fields.insert(0, f0);
            proof {
                assert(chars_vecs_view(fields@) =~~= seq![seq![cs@[i as int]] + pre[0]]
                    + pre.drop_first());
            }
        }
    }
    proof {
        assert(cs@.skip(0) =~= cs@);
    }
    let ghost fv = chars_vecs_view(fields@);
    let mut out: Vec<String> = Vec::new();
    proof {
        assert(fv.skip(0) =~= fv);
        assert(strings_view(out@) + tidy_fields(fv) =~= tidy_fields(fv));
    }
    let mut k: usize = 0;
    while k < fields.len()
        invariant
            k <= fields@.len(),
            fv == chars_vecs_view(fields@),
            fv == split_commas(s@),
            tidy_fields(fv) == strings_view(out@) + tidy_fields(fv.skip(k as int)),
        decreases fields@.len() - k,
    {
        let t = trim_chars(&fields[k]);
        let ghost pre_out = strings_view(out@);
        proof {
            assert(fv.skip(k as int)[0] == fv[k as int]);
            assert(fv.skip(k as int).drop_first() =~= fv.skip(k as int + 1));
        }
        if t.len() > 0 {
            let fs = crate::codec::chars_to_string(&t);
            out.push(fs);
            proof {
                assert(strings_view(out@) =~= pre_out.push(trimmed(fv[k as int])));
                assert(pre_out + (seq![trimmed(fv[k as int])] + tidy_fields(
                    fv.skip(k as int + 1),
                )) =~= strings_view(out@) + tidy_fields(fv.skip(k as int + 1)));
            }
        } else {
            proof {
                assert(trimmed(fv[k as int]).len() == 0);
            }
        }
        k = k + 1;
    }
    proof {
        assert(fv.skip(fv.len() as int) =~= Seq::<Seq<char>>::empty());
        assert(strings_view(out@) + Seq::<Seq<char>>::empty() =~= strings_view(out@));
    }
    out
}

} // verus!
