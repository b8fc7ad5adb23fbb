//! The header table: an unordered key→value string mapping with exact,
//! case-sensitive keys, built from raw `"Key: Value"` lines and serializable
//! back to wire form.

use vstd::prelude::*;
use crate::kv::{assoc_map, distinct_keys, lemma_assoc_map_at, lemma_assoc_map_domain,
    lemma_assoc_map_push, lemma_assoc_map_update};
use crate::text::str_eq;
use vstd::pervasive::VecAdditionalExecFns;

verus! {

/// The two-character `": "` separator starts at index `i` of `s`.
pub open spec fn sep_at(s: Seq<char>, i: int) -> bool {
    0 <= i && i + 2 <= s.len() && s[i] == ':' && s[i + 1] == ' '
}

/// `s` holds a `": "` separator somewhere.
pub open spec fn has_sep(s: Seq<char>) -> bool {
    exists|i: int| sep_at(s, i)
}

/// Index of the first `": "` separator; the length of `s` when there is none.
pub open spec fn first_sep(s: Seq<char>) -> int
    decreases s.len(),
{
    if s.len() < 2 {
        s.len() as int
    } else if s[0] == ':' && s[1] == ' ' {
        0
    } else {
        1 + first_sep(s.skip(1))
    }
}

pub proof fn lemma_first_sep(s: Seq<char>)
    ensures
        0 <= first_sep(s) <= s.len(),
        has_sep(s) ==> first_sep(s) + 2 <= s.len() && sep_at(s, first_sep(s)),
        !has_sep(s) ==> first_sep(s) == s.len(),
        forall|j: int| 0 <= j < first_sep(s) ==> !sep_at(s, j),
    decreases s.len(),
{
    if s.len() < 2 {
        assert(forall|j: int| !sep_at(s, j));
    } else if s[0] == ':' && s[1] == ' ' {
        assert(sep_at(s, 0));
    } else {
        let t = s.skip(1);
        lemma_first_sep(t);
        assert forall|j: int| sep_at(t, j) implies sep_at(s, j + 1) by {
            assert(t[j] == s[j + 1]);
            assert(t[j + 1] == s[j + 2]);
        }
        if has_sep(s) {
            let j = choose|j: int| sep_at(s, j);
            assert(!sep_at(s, 0));
            assert(t[j - 1] == s[j]);
            assert(t[j] == s[j + 1]);
            assert(sep_at(t, j - 1));
            assert(has_sep(t));
            assert(sep_at(s, first_sep(t) + 1));
        }
        if has_sep(t) {
            let j = choose|j: int| sep_at(t, j);
            assert(sep_at(s, j + 1));
        }
        assert forall|j: int| 0 <= j < first_sep(s) implies !sep_at(s, j) by {
            if j == 0 {
                assert(!sep_at(s, 0));
            } else if sep_at(s, j) {
                assert(t[j - 1] == s[j]);
                assert(t[j] == s[j + 1]);
                assert(sep_at(t, j - 1));
            }
        }
    }
}

/// The key of a raw header line: everything before the first `": "`.
pub open spec fn header_key(line: Seq<char>) -> Seq<char> {
    line.take(first_sep(line))
}

/// The value of a raw header line: between the first `": "` and the next one
/// or the end. A value that itself holds `": "` is therefore cut short — a
/// documented limitation of the wire format, kept as-is.
pub open spec fn header_value(line: Seq<char>) -> Seq<char> {
    let rest = line.skip(first_sep(line) + 2);
    rest.take(first_sep(rest))
}

/// The map that a sequence of raw header lines denotes; a repeated key keeps
/// the last line's value.
pub open spec fn spec_headers(lines: Seq<Seq<char>>) -> Map<Seq<char>, Seq<char>>
    decreases lines.len(),
{
    if lines.len() == 0 {
        Map::empty()
    } else {
        spec_headers(lines.drop_last()).insert(
            header_key(lines.last()),
            header_value(lines.last()),
        )
    }
}

/// One entry's wire line.
pub open spec fn render_entry(e: (Seq<char>, Seq<char>)) -> Seq<char> {
    e.0 + ": "@ + e.1 + "\r\n"@
}

/// The wire form of the entries, one `"Key: Value\r\n"` line each, in order.
pub open spec fn render_entries(es: Seq<(Seq<char>, Seq<char>)>) -> Seq<char>
    decreases es.len(),
{
    if es.len() == 0 {
        Seq::empty()
    } else {
        render_entries(es.drop_last()) + render_entry(es.last())
    }
}

/// Law: the serialized table is exactly the entries' lines in order — around
/// any one entry's line stand precisely its neighbours' lines.
pub proof fn lemma_render_entry_present(es: Seq<(Seq<char>, Seq<char>)>, i: int)
    requires
        0 <= i < es.len(),
    ensures
        render_entries(es) == render_entries(es.take(i)) + render_entry(es[i]) + render_entries(
            es.skip(i + 1),
        ),
    decreases es.len(),
{
    if i == es.len() - 1 {
        assert(es.take(i) =~= es.drop_last());
        assert(es.skip(i + 1) =~= Seq::<(Seq<char>, Seq<char>)>::empty());
        assert(render_entries(es) =~= render_entries(es.take(i)) + render_entry(es[i])
            + render_entries(es.skip(i + 1)));
    } else {
        lemma_render_entry_present(es.drop_last(), i);
        assert(es.drop_last().take(i) =~= es.take(i));
        assert(es.drop_last()[i] == es[i]);
        assert(es.drop_last().skip(i + 1) =~= es.skip(i + 1).drop_last());
        assert(es.skip(i + 1).last() == es.last());
        assert(render_entries(es.skip(i + 1)) == render_entries(es.skip(i + 1).drop_last())
            + render_entry(es.skip(i + 1).last()));
        assert(render_entries(es) =~= render_entries(es.take(i)) + render_entry(es[i])
            + render_entries(es.skip(i + 1)));
    }
}

/// Index of the first `": "` separator of `s`, or its length when none occurs.
pub fn find_sep(s: &str) -> (r: usize)
    ensures
        r == first_sep(s@),
{
    proof {
        lemma_first_sep(s@);
    }
    let len = s.unicode_len();
    let mut i: usize = 0;
    while i < len && i + 1 < len
        invariant
            i <= len,
            len == s@.len(),
            forall|j: int| 0 <= j < i ==> !sep_at(s@, j),
        decreases len - i,
    {
        if s.get_char(i) == ':' && s.get_char(i + 1) == ' ' {
            proof {
                lemma_first_sep(s@);
                assert(sep_at(s@, i as int));
                assert(has_sep(s@));
                if first_sep(s@) < i as int {
                    assert(!sep_at(s@, first_sep(s@)));
                    assert(false);
                }
                if first_sep(s@) > i as int {
                    assert(!sep_at(s@, i as int));
                    assert(false);
                }
            }
            return i;
        }
        i = i + 1;
    }
    proof {
        lemma_first_sep(s@);
        assert forall|j: int| !sep_at(s@, j) by {
            if sep_at(s@, j) {
                assert(0 <= j && j + 2 <= len);
                assert(j < i);
            }
        }
    }
    len
}

/// Split a raw header line at its first `": "`.
pub fn split_header_line(line: &str) -> (r: (&str, &str))
    requires
        has_sep(line@),
    ensures
        r.0@ == header_key(line@),
        r.1@ == header_value(line@),
{
    proof {
        lemma_first_sep(line@);
    }
    let len = line.unicode_len();
    let i = find_sep(line);
    let key = line.substring_char(0, i);
    let rest = line.substring_char(i + 2, len);
    proof {
        assert(key@ =~= line@.take(i as int));
        assert(rest@ =~= line@.skip(i + 2));
        lemma_first_sep(rest@);
    }
    let j = find_sep(rest);
    let value = rest.substring_char(0, j);
    proof {
        assert(value@ =~= rest@.take(j as int));
    }
    (key, value)
}

/// An unordered key→value mapping; keys are unique, exact and case-sensitive.
#[derive(Debug)]
pub struct Header {
    fields: Vec<(String, String)>,
}

impl View for Header {
    type V = Map<Seq<char>, Seq<char>>;

    closed spec fn view(&self) -> Map<Seq<char>, Seq<char>> {
        assoc_map(self.entries())
    }
}

impl Header {
    /// The entries in insertion order; `to_string` serializes them in this order.
    pub closed spec fn entries(&self) -> Seq<(Seq<char>, Seq<char>)> {
        self.fields@.map_values(|p: (String, String)| (p.0@, p.1@))
    }

    /// Well-formed: no two entries share a key.
    pub closed spec fn wf(&self) -> bool {
        distinct_keys(self.entries())
    }

    pub fn new() -> (r: Self)
        ensures
            r.wf(),
            r@ == Map::<Seq<char>, Seq<char>>::empty(),
            r.entries() == Seq::<(Seq<char>, Seq<char>)>::empty(),
    {
        let r = Self { fields: Vec::new() };
        proof {
            assert(r.entries() =~= Seq::<(Seq<char>, Seq<char>)>::empty());
        }
        r
    }

    /// Build a table from raw header lines; each line must hold a `": "`
    /// separator. A repeated key keeps the last line's value.
    pub fn from(headers: Vec<String>) -> (r: Self)
        requires
            forall|i: int| 0 <= i < headers@.len() ==> has_sep(#[trigger] headers@[i]@),
        ensures
            r.wf(),
            r@ == spec_headers(headers@.map_values(|l: String| l@)),
    {
        let ghost lviews = headers@.map_values(|l: String| l@);
        let mut r = Self::new();
        let n = headers.len();
        let mut i: usize = 0;
        while i < n
            invariant
                i <= n,
                n == headers@.len(),
                lviews == headers@.map_values(|l: String| l@),
                forall|k: int| 0 <= k < headers@.len() ==> has_sep(#[trigger] headers@[k]@),
                r.wf(),
                r@ == spec_headers(lviews.take(i as int)),
            decreases n - i,
        {
            let (k, v) = split_header_line(headers[i].as_str());
            r.set(k, v);
            proof {
                assert(lviews.take(i + 1).drop_last() =~= lviews.take(i as int));
                assert(lviews.take(i + 1).last() == lviews[i as int]);
                assert(lviews[i as int] == headers@[i as int]@);
            }
            i = i + 1;
        }
        proof {
            assert(lviews.take(n as int) =~= lviews);
        }
        r
    }

    /// Look the key up; exactly the mapping's value comes back.
    pub fn get(&self, key: &str) -> (r: Option<&String>)
        requires
            self.wf(),
        ensures
            match r {
                Some(v) => self@.contains_key(key@) && v@ == self@[key@],
                None => !self@.contains_key(key@),
            },
    {
        let n = self.fields.len();
        let mut i: usize = 0;
        while i < n
            invariant
                i <= n,
                n == self.fields@.len(),
                self.wf(),
                forall|j: int| 0 <= j < i ==> #[trigger] self.entries()[j].0 != key@,
            decreases n - i,
        {
            if str_eq(self.fields[i].0.as_str(), key) {
                proof {
                    lemma_assoc_map_at(self.entries(), i as int);
                }
                return Some(&self.fields[i].1);
            }
            i = i + 1;
        }
        proof {
            lemma_assoc_map_domain(self.entries());
        }
        None
    }

    /// Insert or replace: afterwards the table maps `key` to `value` and all
    /// other keys as before.
    pub fn set(&mut self, key: &str, value: &str)
        requires
            old(self).wf(),
        ensures
            final(self).wf(),
            final(self)@ == old(self)@.insert(key@, value@),
    {
        let n = self.fields.len();
        let mut i: usize = 0;
        while i < n
            invariant
                i <= n,
                n == self.fields@.len(),
                self == old(self),
                self.wf(),
                forall|j: int| 0 <= j < i ==> #[trigger] self.entries()[j].0 != key@,
            decreases n - i,
        {
            if str_eq(self.fields[i].0.as_str(), key) {
                let k2 = self.fields[i].0.clone();
                self.fields.set(i, (k2, String::from_str(value)));
                proof {
                    lemma_assoc_map_update(old(self).entries(), i as int, value@);
                    assert(self.entries() =~= old(self).entries().update(
                        i as int,
                        (old(self).entries()[i as int].0, value@),
                    ));
                    assert(old(self).entries()[i as int].0 == key@);
                }
                return;
            }
            i = i + 1;
        }
        self.fields.push((String::from_str(key), String::from_str(value)));
        proof {
            lemma_assoc_map_push(old(self).entries(), key@, value@);
            assert(self.entries() =~= old(self).entries().push((key@, value@)));
        }
    }

    /// Serialize to wire form: one `"Key: Value\r\n"` line per entry, in
    /// insertion order.
    pub fn to_string(&self) -> (r: String)
        ensures
            r@ == render_entries(self.entries()),
    {
        let mut out = String::new();
        let n = self.fields.len();
        let mut i: usize = 0;
        while i < n
            invariant
                i <= n,
                n == self.fields@.len(),
                out@ == render_entries(self.entries().take(i as int)),
            decreases n - i,
        {
            out.append(self.fields[i].0.as_str());
            out.append(": ");
            out.append(self.fields[i].1.as_str());
            out.append("\r\n");
            proof {
                assert(self.entries().take(i + 1).drop_last() =~= self.entries().take(i as int));
                assert(self.entries().take(i + 1).last() == self.entries()[i as int]);
            }
            i = i + 1;
        }
        proof {
            assert(self.entries().take(n as int) =~= self.entries());
        }
        out
    }
}

/// Law: after `set(k, v)`, `get(k)` returns exactly `v` — stated over the map
/// view that both contracts use.
pub proof fn lemma_set_then_get(m: Map<Seq<char>, Seq<char>>, k: Seq<char>, v: Seq<char>)
    ensures
        m.insert(k, v).contains_key(k),
        m.insert(k, v)[k] == v,
{
}

} // verus!
