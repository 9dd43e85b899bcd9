//! Building a JSON object body from a sequence of key/value pairs.
//!
//! Pairs are folded into a mapping from key to value: a later pair with
//! a key already seen overwrites the earlier value in place, so keys are
//! unique in the result and keep the order of their first occurrence.
//! The mapping is then serialized as a JSON object with escaped strings.

use vstd::prelude::*;
use vstd::pervasive::VecAdditionalExecFns;
use vstd::string::StrSliceExecFns;
use vstd::string::StringExecFns;

use crate::kv::KVPair;
use crate::strutil::digit_char;
use crate::strutil::push_char;

verus! {

/// The (key, value) character sequences of a sequence of pairs.
pub open spec fn pairs_view(ps: Seq<KVPair>) -> Seq<(Seq<char>, Seq<char>)> {
    ps.map_values(|p: KVPair| (p.k@, p.v@))
}

/// Some pair of `ps` has key `k`.
pub open spec fn has_key(ps: Seq<(Seq<char>, Seq<char>)>, k: Seq<char>) -> bool {
    exists|i: int| 0 <= i < ps.len() && ps[i].0 == k
}

/// An index of a pair of `ps` with key `k`; unique when keys are unique.
pub open spec fn key_index(ps: Seq<(Seq<char>, Seq<char>)>, k: Seq<char>) -> int
    recommends
        has_key(ps, k),
{
    choose|i: int| 0 <= i < ps.len() && ps[i].0 == k
}

/// No two pairs of `ps` share a key.
pub open spec fn unique_keys(ps: Seq<(Seq<char>, Seq<char>)>) -> bool {
    forall|i: int, j: int| 0 <= i < j < ps.len() ==> ps[i].0 != ps[j].0
}

/// `ps` folded into a mapping: a later pair with a key already present
/// overwrites the value in place; a new key is appended.
pub open spec fn folded_pairs(ps: Seq<(Seq<char>, Seq<char>)>) -> Seq<(Seq<char>, Seq<char>)>
    decreases ps.len(),
{
    if ps.len() == 0 {
        Seq::empty()
    } else {
        let prev = folded_pairs(ps.drop_last());
        let last = ps.last();
        if has_key(prev, last.0) {
            prev.update(key_index(prev, last.0), last)
        } else {
            prev.push(last)
        }
    }
}

/// Folding never leaves two pairs with the same key.
pub proof fn lemma_folded_unique(ps: Seq<(Seq<char>, Seq<char>)>)
    ensures
        unique_keys(folded_pairs(ps)),
    decreases ps.len(),
{
    if ps.len() > 0 {
        lemma_folded_unique(ps.drop_last());
        let prev = folded_pairs(ps.drop_last());
        let last = ps.last();
        if has_key(prev, last.0) {
            let idx = key_index(prev, last.0);
            assert(0 <= idx < prev.len() && prev[idx].0 == last.0);
            assert(unique_keys(prev.update(idx, last)));
        }
    }
}

/// A key appears in the folded mapping exactly when some pair of `ps`
/// carries it.
pub proof fn lemma_folded_key_membership(ps: Seq<(Seq<char>, Seq<char>)>, k: Seq<char>)
    ensures
        has_key(folded_pairs(ps), k) <==> has_key(ps, k),
    decreases ps.len(),
{
    if ps.len() > 0 {
        lemma_folded_key_membership(ps.drop_last(), k);
        let prev = folded_pairs(ps.drop_last());
        let last = ps.last();
        let fps = folded_pairs(ps);
        assert(last == ps[ps.len() - 1]);
        if has_key(ps, k) {
            let i = choose|i: int| 0 <= i < ps.len() && ps[i].0 == k;
            if i < ps.len() - 1 {
                assert(ps.drop_last()[i].0 == k);
                assert(has_key(ps.drop_last(), k));
                let p = choose|p: int| 0 <= p < prev.len() && prev[p].0 == k;
                if has_key(prev, last.0) {
                    let idx = key_index(prev, last.0);
                    assert(0 <= idx < prev.len() && prev[idx].0 == last.0);
                    if p == idx {
                        assert(fps[idx].0 == last.0 && last.0 == k);
                    } else {
                        assert(fps[p].0 == k);
                    }
                } else {
                    assert(fps[p].0 == k);
                }
            } else {
                // the last pair carries the key
                assert(last.0 == k);
                if has_key(prev, last.0) {
                    let idx = key_index(prev, last.0);
                    assert(0 <= idx < prev.len() && prev[idx].0 == last.0);
                    assert(fps[idx].0 == k);
                } else {
                    assert(fps[prev.len() as int].0 == k);
                }
            }
            assert(has_key(fps, k));
        }
        if has_key(fps, k) {
            let p = choose|p: int| 0 <= p < fps.len() && fps[p].0 == k;
            if has_key(prev, last.0) {
                let idx = key_index(prev, last.0);
                assert(0 <= idx < prev.len() && prev[idx].0 == last.0);
                if p == idx {
                    assert(last.0 == k);
                    assert(ps[ps.len() - 1].0 == k);
                } else {
                    assert(prev[p].0 == k);
                    assert(has_key(prev, k));
                    let i = choose|i: int| 0 <= i < ps.drop_last().len()
                        && ps.drop_last()[i].0 == k;
                    assert(ps[i].0 == k);
                }
            } else {
                if p == prev.len() {
                    assert(last.0 == k);
                    assert(ps[ps.len() - 1].0 == k);
                } else {
                    assert(prev[p].0 == k);
                    assert(has_key(prev, k));
                    let i = choose|i: int| 0 <= i < ps.drop_last().len()
                        && ps.drop_last()[i].0 == k;
                    assert(ps[i].0 == k);
                }
            }
            assert(has_key(ps, k));
        }
    }
}

/// The index of the last pair of `ps` with key `k`.
pub open spec fn last_key_index(ps: Seq<(Seq<char>, Seq<char>)>, k: Seq<char>) -> int
    recommends
        has_key(ps, k),
    decreases ps.len(),
{
    if ps.len() == 0 {
        0
    } else if ps.last().0 == k {
        ps.len() - 1
    } else {
        last_key_index(ps.drop_last(), k)
    }
}

/// The value that the folded mapping gives a key is the value of the
/// last pair of `ps` with that key: a later duplicate wins.
pub proof fn lemma_folded_later_wins(ps: Seq<(Seq<char>, Seq<char>)>, k: Seq<char>)
    requires
        has_key(ps, k),
    ensures
        has_key(folded_pairs(ps), k),
        0 <= last_key_index(ps, k) < ps.len(),
        ps[last_key_index(ps, k)].0 == k,
        folded_pairs(ps)[key_index(folded_pairs(ps), k)].1 == ps[last_key_index(ps, k)].1,
    decreases ps.len(),
{
    lemma_folded_key_membership(ps, k);
    lemma_folded_unique(ps);
    let prev = folded_pairs(ps.drop_last());
    let last = ps.last();
    let fps = folded_pairs(ps);
    let fidx = key_index(fps, k);
    assert(0 <= fidx < fps.len() && fps[fidx].0 == k);
    if last.0 == k {
        // the last pair itself wins
        assert(last_key_index(ps, k) == ps.len() - 1);
        if has_key(prev, last.0) {
            let idx = key_index(prev, last.0);
            assert(0 <= idx < prev.len() && prev[idx].0 == last.0);
            assert(fps == prev.update(idx, last));
            lemma_folded_unique(ps.drop_last());
            assert(fps[idx] == last);
            // uniqueness puts the chosen index at idx
            assert(fps[fidx].0 == fps[idx].0);
            if fidx != idx {
                assert(false);
            }
        } else {
            assert(fps == prev.push(last));
            assert(fps[fps.len() - 1] == last);
            if fidx != fps.len() - 1 {
                lemma_folded_key_membership(ps.drop_last(), k);
                assert(has_key(prev, k));
                assert(false);
            }
        }
    } else {
        assert(has_key(ps.drop_last(), k)) by {
            let i = choose|i: int| 0 <= i < ps.len() && ps[i].0 == k;
            assert(i < ps.len() - 1);
            assert(ps.drop_last()[i].0 == k);
        }
        lemma_folded_later_wins(ps.drop_last(), k);
        assert(last_key_index(ps, k) == last_key_index(ps.drop_last(), k));
        assert(ps[last_key_index(ps, k)] == ps.drop_last()[last_key_index(ps.drop_last(), k)]);
        let pidx = key_index(prev, k);
        assert(0 <= pidx < prev.len() && prev[pidx].0 == k);
        if has_key(prev, last.0) {
            let idx = key_index(prev, last.0);
            assert(0 <= idx < prev.len() && prev[idx].0 == last.0);
            assert(fps == prev.update(idx, last));
            lemma_folded_unique(ps.drop_last());
            assert(idx != pidx);
            assert(fps[pidx] == prev[pidx]);
            if fidx != pidx {
                assert(false);
            }
        } else {
            assert(fps == prev.push(last));
            assert(fps[pidx] == prev[pidx]);
            if fidx != pidx {
                assert(false);
            }
        }
    }
}

/// Find the pair of `out` whose key equals `k`, under unique keys.
fn find_key(out: &Vec<KVPair>, k: &String) -> (r: Option<usize>)
    ensures
        r matches Some(j) ==> j < out@.len() && out@[j as int].k@ == k@,
        r is None ==> !has_key(pairs_view(out@), k@),
{
    let mut j: usize = 0;
    while j < out.len()
        invariant
            0 <= j <= out@.len(),
            forall|i: int| 0 <= i < j ==> out@[i].k@ != k@,
        decreases out@.len() - j,
    {
        if out[j].k == *k {
            return Some(j);
        }
        j = j + 1;
    }
    proof {
        assert(forall|i: int|
            0 <= i < pairs_view(out@).len() ==> pairs_view(out@)[i].0 != k@);
    }
    None
}

/// Fold `pairs` into a mapping from key to value: later duplicate keys
/// overwrite earlier values; first-occurrence key order is kept.
pub fn fold_pairs(pairs: &Vec<KVPair>) -> (out: Vec<KVPair>)
    ensures
        pairs_view(out@) == folded_pairs(pairs_view(pairs@)),
{
    let mut out: Vec<KVPair> = Vec::new();
    let mut idx: usize = 0;
    proof {
        assert(pairs_view(out@) =~= folded_pairs(pairs_view(pairs@).take(0)));
    }
    while idx < pairs.len()
        invariant
            0 <= idx <= pairs@.len(),
            pairs_view(out@) == folded_pairs(pairs_view(pairs@).take(idx as int)),
            unique_keys(pairs_view(out@)),
        decreases pairs@.len() - idx,
    {
        let p = KVPair { k: pairs[idx].k.clone(), v: pairs[idx].v.clone() };
        let ghost pre = pairs_view(pairs@).take(idx as int);
        let ghost post = pairs_view(pairs@).take(idx as int + 1);
        proof {
            assert(post.drop_last() =~= pre);
            assert(post.last() == (pairs@[idx as int].k@, pairs@[idx as int].v@));
        }
        match find_key(&out, &p.k) {
            Some(j) => {
                proof {
                    let prev = pairs_view(out@);
                    assert(prev[j as int].0 == p.k@);
                    assert(has_key(prev, p.k@));
                    let ci = key_index(prev, p.k@);
                    assert(0 <= ci < prev.len() && prev[ci].0 == p.k@);
                    if ci != j {
                        assert(false);
                    }
                }
                out.set(j, p);
                proof {
                    assert(pairs_view(out@) =~= folded_pairs(post));
                }
            },
            None => {
                out.push(p);
                proof {
                    assert(pairs_view(out@) =~= folded_pairs(post));
                }
            },
        }
        proof {
            lemma_folded_unique(post);
        }
        idx = idx + 1;
    }
    proof {
        assert(pairs_view(pairs@).take(pairs@.len() as int) =~= pairs_view(pairs@));
    }
    out
}

/// The hexadecimal digit character for `d`.
pub open spec fn hex_char(d: int) -> char {
    if d < 10 {
        digit_char(d)
    } else if d == 10 {
        'a'
    } else if d == 11 {
        'b'
    } else if d == 12 {
        'c'
    } else if d == 13 {
        'd'
    } else if d == 14 {
        'e'
    } else {
        'f'
    }
}

/// The JSON escape of one character: quote and backslash are escaped,
/// control characters use a short or `\u00..` escape, all else stands.
pub open spec fn escape_char(c: char) -> Seq<char> {
    if c == '"' {
        seq!['\\', '"']
    } else if c == '\\' {
        seq!['\\', '\\']
    } else if c == '\n' {
        seq!['\\', 'n']
    } else if c == '\r' {
        seq!['\\', 'r']
    } else if c == '\t' {
        seq!['\\', 't']
    } else if (c as u32) < 32 {
        seq!['\\', 'u', '0', '0', hex_char((c as int) / 16), hex_char((c as int) % 16)]
    } else {
        seq![c]
    }
}

/// The JSON escape of a string's characters.
pub open spec fn escape_seq(s: Seq<char>) -> Seq<char>
    decreases s.len(),
{
    if s.len() == 0 {
        Seq::empty()
    } else {
        escape_seq(s.drop_last()) + escape_char(s.last())
    }
}

/// A JSON string literal: the escaped characters between quotes.
pub open spec fn json_string_of(s: Seq<char>) -> Seq<char> {
    seq!['"'] + escape_seq(s) + seq!['"']
}

/// One `"key":"value"` member of a JSON object.
pub open spec fn json_member_of(p: (Seq<char>, Seq<char>)) -> Seq<char> {
    json_string_of(p.0) + seq![':'] + json_string_of(p.1)
}

/// The comma-separated members of a JSON object.
pub open spec fn json_members_of(ps: Seq<(Seq<char>, Seq<char>)>) -> Seq<char>
    decreases ps.len(),
{
    if ps.len() == 0 {
        Seq::empty()
    } else if ps.len() == 1 {
        json_member_of(ps[0])
    } else {
        json_members_of(ps.drop_last()) + seq![','] + json_member_of(ps.last())
    }
}

/// A JSON object with the given members, in order.
pub open spec fn json_object_of(ps: Seq<(Seq<char>, Seq<char>)>) -> Seq<char> {
    seq!['{'] + json_members_of(ps) + seq!['}']
}

fn hex_char_exec(d: u32) -> (r: char)
    requires
        d < 16,
    ensures
        r == hex_char(d as int),
{
    if d == 0 {
        '0'
    } else if d == 1 {
        '1'
    } else if d == 2 {
        '2'
    } else if d == 3 {
        '3'
    } else if d == 4 {
        '4'
    } else if d == 5 {
        '5'
    } else if d == 6 {
        '6'
    } else if d == 7 {
        '7'
    } else if d == 8 {
        '8'
    } else if d == 9 {
        '9'
    } else if d == 10 {
        'a'
    } else if d == 11 {
        'b'
    } else if d == 12 {
        'c'
    } else if d == 13 {
        'd'
    } else if d == 14 {
        'e'
    } else {
        'f'
    }
}

/// Append the JSON escape of one character to `s`.
fn append_escaped_char(s: &mut String, c: char)
    ensures
        final(s)@ == old(s)@ + escape_char(c),
{
    if c == '"' {
        push_char(s, '\\');
        push_char(s, '"');
    } else if c == '\\' {
        push_char(s, '\\');
        push_char(s, '\\');
    } else if c == '\n' {
        push_char(s, '\\');
        push_char(s, 'n');
    } else if c == '\r' {
        push_char(s, '\\');
        push_char(s, 'r');
    } else if c == '\t' {
        push_char(s, '\\');
        push_char(s, 't');
    } else if (c as u32) < 32 {
        push_char(s, '\\');
        push_char(s, 'u');
        push_char(s, '0');
        push_char(s, '0');
        let hi = hex_char_exec((c as u32) / 16);
        push_char(s, hi);
        let lo = hex_char_exec((c as u32) % 16);
        push_char(s, lo);
    } else {
        push_char(s, c);
    }
    proof {
        assert(s@ =~= old(s)@ + escape_char(c));
    }
}

/// Append the JSON string literal for `t` to `s`.
fn append_json_string(s: &mut String, t: &str)
    ensures
        final(s)@ == old(s)@ + json_string_of(t@),
{
    push_char(s, '"');
    let n = t.unicode_len();
    let mut i: usize = 0;
    while i < n
        invariant
            0 <= i <= n,
            n == t@.len(),
            s@ == old(s)@ + seq!['"'] + escape_seq(t@.take(i as int)),
        decreases n - i,
    {
        let c = t.get_char(i);
        append_escaped_char(s, c);
        proof {
            let pre = t@.take(i as int);
            let post = t@.take(i as int + 1);
            assert(post.drop_last() =~= pre);
            assert(post.last() == c);
            assert(escape_seq(post) == escape_seq(pre) + escape_char(c));
            assert(s@ =~= old(s)@ + seq!['"'] + escape_seq(post));
        }
        i = i + 1;
    }
    push_char(s, '"');
    proof {
        assert(t@.take(n as int) =~= t@);
        assert(s@ =~= old(s)@ + json_string_of(t@));
    }
}

/// Serialize pairs with unique keys as a JSON object, in order.
fn serialize_object(pairs: &Vec<KVPair>) -> (r: String)
    ensures
        r@ == json_object_of(pairs_view(pairs@)),
{
    let mut s = String::new();
    push_char(&mut s, '{');
    let mut i: usize = 0;
    proof {
        assert(s@ =~= seq!['{'] + json_members_of(pairs_view(pairs@).take(0)));
    }
    while i < pairs.len()
        invariant
            0 <= i <= pairs@.len(),
            s@ == seq!['{'] + json_members_of(pairs_view(pairs@).take(i as int)),
        decreases pairs@.len() - i,
    {
        if i > 0 {
            push_char(&mut s, ',');
        }
        append_json_string(&mut s, pairs[i].k.as_str());
        push_char(&mut s, ':');
        append_json_string(&mut s, pairs[i].v.as_str());
        proof {
            let pre = pairs_view(pairs@).take(i as int);
            let post = pairs_view(pairs@).take(i as int + 1);
            assert(post.drop_last() =~= pre);
            assert(post.last() == (pairs@[i as int].k@, pairs@[i as int].v@));
            assert(s@ =~= seq!['{'] + json_members_of(post));
        }
        i = i + 1;
    }
    push_char(&mut s, '}');
    proof {
        assert(pairs_view(pairs@).take(pairs@.len() as int) =~= pairs_view(pairs@));
        assert(s@ =~= json_object_of(pairs_view(pairs@)));
    }
    s
}

/// Build the JSON body for a POST: fold the pairs into a mapping (later
/// duplicate keys overwrite earlier values) and serialize it.
pub fn build_json_body(pairs: &Vec<KVPair>) -> (r: String)
    ensures
        r@ == json_object_of(folded_pairs(pairs_view(pairs@))),
{
    let folded = fold_pairs(pairs);
    serialize_object(&folded)
}

} // verus!
