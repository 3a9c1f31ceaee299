//! The model of a persistent cookie store: name/value pairs with distinct
//! names, where storing an existing name overwrites its value in place.
//! Contracts speak of the map from cookie name to value.

use vstd::prelude::*;

use crate::assoc::{assoc_map, lemma_assoc_map_contains, lemma_assoc_map_push,
    lemma_assoc_map_update_at, unique_keys};

verus! {

/// A cookie list as key/value pairs at the specification level.
pub open spec fn cookie_pairs(s: Seq<(String, String)>) -> Seq<(Seq<char>, Seq<char>)> {
    s.map_values(|p: (String, String)| (p.0@, p.1@))
}

/// No cookie name occurs twice.
pub open spec fn unique_names(s: Seq<(String, String)>) -> bool {
    unique_keys(cookie_pairs(s))
}

/// The map from cookie name to value that a cookie list denotes.
pub open spec fn cookie_map(s: Seq<(String, String)>) -> Map<Seq<char>, Seq<char>> {
    assoc_map(cookie_pairs(s))
}

/// The map after storing `pairs` in order, each overwriting any earlier
/// value of its name.
pub open spec fn upsert_all(m: Map<Seq<char>, Seq<char>>, pairs: Seq<(Seq<char>, Seq<char>)>) -> Map<
    Seq<char>,
    Seq<char>,
>
    decreases pairs.len(),
{
    if pairs.len() == 0 {
        m
    } else {
        upsert_all(m.insert(pairs[0].0, pairs[0].1), pairs.drop_first())
    }
}

/// Stores one cookie: overwrites the value of an existing name, appends a
/// new name at the end.
pub fn cookie_upsert(store: &mut Vec<(String, String)>, name: String, value: String)
    requires
        unique_names(old(store)@),
    ensures
        unique_names(final(store)@),
        cookie_map(final(store)@) == cookie_map(old(store)@).insert(name@, value@),
{
    let n = store.len();
    let mut i: usize = 0;
    while i < n
        invariant
            unique_names(store@),
            *store == *old(store),
            n == store@.len(),
            0 <= i <= n,
            forall|j: int| 0 <= j < i ==> (#[trigger] store@[j]).0@ != name@,
        decreases n - i,
    {
        if store[i].0 == name {
            let ghost pre = store@;
            let (_, _) = store.remove(i);
            store.insert(i, (name, value));
            proof {
                assert(store@ =~= pre.update(i as int, (name, value)));
                assert(cookie_pairs(store@) =~= cookie_pairs(pre).update(
                    i as int,
                    (cookie_pairs(pre)[i as int].0, value@),
                ));
                lemma_assoc_map_update_at(cookie_pairs(pre), i as int, value@);
            }
            return ;
        }
        i = i + 1;
    }
    let ghost pre = store@;
    store.push((name, value));
    proof {
        assert(cookie_pairs(store@) =~= cookie_pairs(pre).push((name@, value@)));
        lemma_assoc_map_push(cookie_pairs(pre), name@, value@);
        lemma_assoc_map_contains(cookie_pairs(pre), name@);
        assert forall|a: int, b: int|
            0 <= a < b < cookie_pairs(store@).len() implies (#[trigger] cookie_pairs(store@)[a]).0
            != (#[trigger] cookie_pairs(store@)[b]).0 by {
            if b < pre.len() {
                assert(cookie_pairs(store@)[a] == cookie_pairs(pre)[a]);
                assert(cookie_pairs(store@)[b] == cookie_pairs(pre)[b]);
            } else {
                assert(cookie_pairs(store@)[a] == cookie_pairs(pre)[a]);
            }
        }
    }
}

/// Stores a batch of cookies in order; later pairs overwrite earlier ones
/// and existing names are overwritten in place.
pub fn cookie_upsert_all(store: &mut Vec<(String, String)>, pairs: Vec<(String, String)>)
    requires
        unique_names(old(store)@),
    ensures
        unique_names(final(store)@),
        cookie_map(final(store)@) == upsert_all(cookie_map(old(store)@), cookie_pairs(pairs@)),
{
    let ghost all = pairs@;
    let mut rest = pairs;
    while rest.len() > 0
        invariant
            unique_names(store@),
            upsert_all(cookie_map(store@), cookie_pairs(rest@)) == upsert_all(
                cookie_map(old(store)@),
                cookie_pairs(all),
            ),
        decreases rest@.len(),
    {
        let ghost before = rest@;
        let (name, value) = rest.remove(0);
        proof {
            assert(rest@ =~= before.drop_first());
            assert(cookie_pairs(rest@) =~= cookie_pairs(before).drop_first());
        }
        cookie_upsert(store, name, value);
    }
}

/// Whitespace as trimming sees it (the ASCII whitespace characters).
pub open spec fn is_space(c: char) -> bool {
    c == ' ' || c == '\t' || c == '\n' || c == '\r' || c == '\u{0B}' || c == '\u{0C}'
}

/// The string without its leading whitespace.
pub open spec fn trim_front(s: Seq<char>) -> Seq<char>
    decreases s.len(),
{
    if s.len() > 0 && is_space(s[0]) {
        trim_front(s.drop_first())
    } else {
        s
    }
}

/// The string without its trailing whitespace.
pub open spec fn trim_back(s: Seq<char>) -> Seq<char>
    decreases s.len(),
{
    if s.len() > 0 && is_space(s.last()) {
        trim_back(s.drop_last())
    } else {
        s
    }
}

/// The string without leading or trailing whitespace.
pub open spec fn trim_spec(s: Seq<char>) -> Seq<char> {
    trim_back(trim_front(s))
}

/// The parts of a string separated by `;`, in order. An empty string is
/// one empty part; every separator ends a part.
pub open spec fn split_semi(s: Seq<char>) -> Seq<Seq<char>>
    decreases s.len(),
{
    if s.len() == 0 {
        seq![Seq::<char>::empty()]
    } else if s[0] == ';' {
        seq![Seq::<char>::empty()] + split_semi(s.drop_first())
    } else {
        let rest = split_semi(s.drop_first());
        seq![seq![s[0]] + rest[0]] + rest.drop_first()
    }
}

/// The position of the first `=`, or the length when there is none.
pub open spec fn first_eq(s: Seq<char>) -> int
    decreases s.len(),
{
    if s.len() == 0 {
        0
    } else if s[0] == '=' {
        0
    } else {
        1 + first_eq(s.drop_first())
    }
}

/// What one `;`-separated part contributes: after trimming, the name and
/// value around the first `=`, or nothing when the part has no `=`.
pub open spec fn cookie_of_part(part: Seq<char>) -> Option<(Seq<char>, Seq<char>)> {
    let t = trim_spec(part);
    if exists|i: int| 0 <= i < t.len() && t[i] == '=' {
        Some((t.take(first_eq(t)), t.skip(first_eq(t) + 1)))
    } else {
        None
    }
}

/// One part's contribution as a (possibly empty) pair sequence.
pub open spec fn opt_cookie(part: Seq<char>) -> Seq<(Seq<char>, Seq<char>)> {
    match cookie_of_part(part) {
        Some(p) => seq![p],
        None => Seq::empty(),
    }
}

/// The contributions of a sequence of parts, in order.
pub open spec fn cookies_in(parts: Seq<Seq<char>>) -> Seq<(Seq<char>, Seq<char>)>
    decreases parts.len(),
{
    if parts.len() == 0 {
        Seq::empty()
    } else {
        opt_cookie(parts[0]) + cookies_in(parts.drop_first())
    }
}

/// The name/value pairs a set-cookie header names, in order: split on `;`,
/// trim each part, split each part once on `=`, skip parts without one.
pub open spec fn cookie_list_of(s: Seq<char>) -> Seq<(Seq<char>, Seq<char>)> {
    cookies_in(split_semi(s))
}

/// Splitting unfolds at the first separator: with no `;` before `k`, the
/// first part is everything before `k`, and the rest is the split of what
/// follows it (or there is no rest, when `k` is the length).
proof fn lemma_split_semi_first(s: Seq<char>, k: int)
    requires
        0 <= k <= s.len(),
        forall|j: int| 0 <= j < k ==> s[j] != ';',
        k < s.len() ==> s[k] == ';',
    ensures
        k < s.len() ==> split_semi(s) == seq![s.take(k)] + split_semi(s.skip(k + 1)),
        k == s.len() ==> split_semi(s) == seq![s],
    decreases s.len(),
{
    if s.len() == 0 {
        assert(split_semi(s) =~~= seq![s]);
    } else if k == 0 {
        if k < s.len() {
            assert(s.take(0) =~= Seq::<char>::empty());
            assert(s.skip(1) =~= s.drop_first());
            assert(split_semi(s) =~~= seq![s.take(k)] + split_semi(s.skip(k + 1)));
        }
    } else {
        assert(s[0] != ';');
        let rest = split_semi(s.drop_first());
        assert forall|j: int| 0 <= j < k - 1 implies s.drop_first()[j] != ';' by {
            assert(s.drop_first()[j] == s[j + 1]);
        }
        lemma_split_semi_first(s.drop_first(), k - 1);
        if k < s.len() {
            assert(rest == seq![s.drop_first().take(k - 1)] + split_semi(
                s.drop_first().skip(k),
            ));
            assert(rest[0] == s.drop_first().take(k - 1));
            assert(seq![s[0]] + s.drop_first().take(k - 1) =~= s.take(k));
            assert(rest.drop_first() =~~= split_semi(s.drop_first().skip(k)));
            assert(s.drop_first().skip(k) =~= s.skip(k + 1));
            assert(split_semi(s) =~~= seq![s.take(k)] + split_semi(s.skip(k + 1)));
        } else {
            assert(rest == seq![s.drop_first()]);
            assert(seq![s[0]] + s.drop_first() =~= s);
            assert(rest.drop_first() =~~= Seq::<Seq<char>>::empty());
            assert(split_semi(s) =~~= seq![s]);
        }
    }
}

/// The pair list unfolds the same way: one part's contribution, then the
/// contributions of what follows the separator.
proof fn lemma_cookie_list_step(s: Seq<char>, k: int)
    requires
        0 <= k <= s.len(),
        forall|j: int| 0 <= j < k ==> s[j] != ';',
        k < s.len() ==> s[k] == ';',
    ensures
        k < s.len() ==> cookie_list_of(s) == opt_cookie(s.take(k)) + cookie_list_of(s.skip(k + 1)),
        k == s.len() ==> cookie_list_of(s) == opt_cookie(s),
{
    lemma_split_semi_first(s, k);
    if k < s.len() {
        let parts = seq![s.take(k)] + split_semi(s.skip(k + 1));
        assert(parts[0] == s.take(k));
        assert(parts.drop_first() =~~= split_semi(s.skip(k + 1)));
        assert(cookies_in(parts) == opt_cookie(s.take(k)) + cookies_in(split_semi(s.skip(k + 1))));
    } else {
        let parts = seq![s];
        assert(parts[0] == s);
        assert(parts.drop_first() =~~= Seq::<Seq<char>>::empty());
        assert(cookies_in(parts.drop_first()) =~= Seq::<(Seq<char>, Seq<char>)>::empty());
        assert(cookies_in(parts) =~= opt_cookie(s));
    }
}

/// Leading whitespace trims to a skip: if everything before `a` is
/// whitespace and `a` stops at a non-space (or the end), trimming the
/// front drops exactly `a` characters.
proof fn lemma_trim_front_skip(s: Seq<char>, a: int)
    requires
        0 <= a <= s.len(),
        forall|j: int| 0 <= j < a ==> is_space(#[trigger] s[j]),
        a < s.len() ==> !is_space(s[a]),
    ensures
        trim_front(s) == s.skip(a),
    decreases s.len(),
{
    if a == 0 {
        assert(s.skip(0) =~= s);
    } else {
        assert(is_space(s[0]));
        assert forall|j: int| 0 <= j < a - 1 implies is_space(#[trigger] s.drop_first()[j]) by {
            assert(s.drop_first()[j] == s[j + 1]);
        }
        lemma_trim_front_skip(s.drop_first(), a - 1);
        assert(s.drop_first().skip(a - 1) =~= s.skip(a));
    }
}

/// Trailing whitespace trims to a take: if everything from `b` on is
/// whitespace and `b` stops after a non-space (or at the start), trimming
/// the back keeps exactly the first `b` characters.
proof fn lemma_trim_back_take(s: Seq<char>, b: int)
    requires
        0 <= b <= s.len(),
        forall|j: int| b <= j < s.len() ==> is_space(#[trigger] s[j]),
        b > 0 ==> !is_space(s[b - 1]),
    ensures
        trim_back(s) == s.take(b),
    decreases s.len(),
{
    if b == s.len() {
        if s.len() > 0 {
            assert(!is_space(s.last()));
        }
        assert(s.take(b) =~= s);
    } else {
        assert(is_space(s.last()));
        assert forall|j: int| b <= j < s.drop_last().len() implies is_space(
            #[trigger] s.drop_last()[j],
        ) by {
            assert(s.drop_last()[j] == s[j]);
        }
        if b > 0 {
            assert(s.drop_last()[b - 1] == s[b - 1]);
        }
        lemma_trim_back_take(s.drop_last(), b);
        assert(s.drop_last().take(b) =~= s.take(b));
    }
}

/// The first `=` is where the first `=` stands.
proof fn lemma_first_eq_at(s: Seq<char>, e: int)
    requires
        0 <= e < s.len(),
        s[e] == '=',
        forall|j: int| 0 <= j < e ==> s[j] != '=',
    ensures
        first_eq(s) == e,
    decreases s.len(),
{
    if e > 0 {
        assert forall|j: int| 0 <= j < e - 1 implies s.drop_first()[j] != '=' by {
            assert(s.drop_first()[j] == s[j + 1]);
        }
        lemma_first_eq_at(s.drop_first(), e - 1);
    }
}

/// Whether a character counts as whitespace for trimming.
fn is_space_char(c: char) -> (r: bool)
    ensures
        r == is_space(c),
{
    c == ' ' || c == '\t' || c == '\n' || c == '\r' || c == '\u{0B}' || c == '\u{0C}'
}

/// The position of the first `target` at or after `from`, or the length
/// when there is none.
fn find_char(s: &str, from: usize, target: char) -> (p: usize)
    requires
        from <= s@.len(),
    ensures
        from <= p <= s@.len(),
        forall|j: int| from <= j < p ==> s@[j] != target,
        p < s@.len() ==> s@[p as int] == target,
{
    let n = s.unicode_len();
    let mut p = from;
    while p < n
        invariant
            from <= p <= n,
            n == s@.len(),
            forall|j: int| from <= j < p ==> s@[j] != target,
        decreases n - p,
    {
        if s.get_char(p) == target {
            return p;
        }
        p = p + 1;
    }
    p
}

/// One `;`-separated part of the header, turned into its name/value pair:
/// trimmed, then split once at the first `=`; a part without `=` yields
/// nothing.
fn split_cookie_part(header: &str, start: usize, end: usize) -> (r: Option<(String, String)>)
    requires
        header.is_ascii(),
        start <= end,
        end <= header@.len(),
    ensures
        match r {
            Some(p) => cookie_of_part(header@.subrange(start as int, end as int)) == Some(
                (p.0@, p.1@),
            ),
            None => cookie_of_part(header@.subrange(start as int, end as int)) is None,
        },
{
    let part = header.substring_ascii(start, end);
    let len = part.unicode_len();
    let mut a: usize = 0;
    while a < len && is_space_char(part.get_char(a))
        invariant
            len == part@.len(),
            0 <= a <= len,
            forall|j: int| 0 <= j < a ==> is_space(#[trigger] part@[j]),
        decreases len - a,
    {
        a = a + 1;
    }
    let mut b: usize = len;
    while b > a && is_space_char(part.get_char(b - 1))
        invariant
            len == part@.len(),
            a <= b <= len,
            forall|j: int| b <= j < len ==> is_space(#[trigger] part@[j]),
        decreases b,
    {
        b = b - 1;
    }
    let t = part.substring_ascii(a, b);
    proof {
        lemma_trim_front_skip(part@, a as int);
        assert forall|j: int| (b - a) <= j < part@.skip(a as int).len() implies is_space(
            #[trigger] part@.skip(a as int)[j],
        ) by {
            assert(part@.skip(a as int)[j] == part@[j + a]);
        }
        if b > a {
            assert(part@.skip(a as int)[b - a - 1] == part@[b as int - 1]);
        }
        lemma_trim_back_take(part@.skip(a as int), b as int - a as int);
        assert(part@.skip(a as int).take(b as int - a as int) =~= part@.subrange(
            a as int,
            b as int,
        ));
        assert(t@ == trim_spec(part@));
    }
    let tn = t.unicode_len();
    let e = find_char(t, 0, '=');
    if e < tn {
        let name = t.substring_ascii(0, e);
        let value = t.substring_ascii(e + 1, tn);
        proof {
            lemma_first_eq_at(t@, e as int);
            assert(t@.subrange(0, e as int) =~= t@.take(first_eq(t@)));
            assert(t@.subrange(e as int + 1, tn as int) =~= t@.skip(first_eq(t@) + 1));
        }
        Some((String::from_str(name), String::from_str(value)))
    } else {
        proof {
            assert(forall|i: int| 0 <= i < t@.len() ==> t@[i] != '=');
        }
        None
    }
}

/// Parses a set-cookie header into its name/value pairs, as the response
/// handling does: split on `;`, trim each part, take `name=value` around
/// the first `=`, skip parts without one, and let a repeated name
/// overwrite its earlier value. The result holds each surviving name once.
pub fn parse_cookies(header: &str) -> (out: Vec<(String, String)>)
    requires
        header.is_ascii(),
    ensures
        unique_names(out@),
        cookie_map(out@) == upsert_all(
            Map::<Seq<char>, Seq<char>>::empty(),
            cookie_list_of(header@),
        ),
{
    let n = header.unicode_len();
    let mut out: Vec<(String, String)> = Vec::new();
    let mut start: usize = 0;
    proof {
        assert(cookie_pairs(out@) =~= Seq::<(Seq<char>, Seq<char>)>::empty());
        assert(cookie_map(out@) =~= Map::<Seq<char>, Seq<char>>::empty());
        assert(header@.skip(0) =~= header@);
    }
    loop
        invariant
            header.is_ascii(),
            n == header@.len(),
            0 <= start <= n,
            unique_names(out@),
            upsert_all(cookie_map(out@), cookie_list_of(header@.skip(start as int))) == upsert_all(
                Map::<Seq<char>, Seq<char>>::empty(),
                cookie_list_of(header@),
            ),
        decreases n - start,
    {
        let ghost remaining = header@.skip(start as int);
        let p = find_char(header, start, ';');
        proof {
            assert forall|j: int| 0 <= j < (p - start) implies remaining[j] != ';' by {
                assert(remaining[j] == header@[j + start]);
            }
            if p < n {
                assert(remaining[p - start] == header@[p as int]);
            }
            lemma_cookie_list_step(remaining, p as int - start as int);
            assert(remaining.take(p as int - start as int) =~= header@.subrange(
                start as int,
                p as int,
            ));
        }
        match split_cookie_part(header, start, p) {
            Some((name, value)) => {
                let ghost m = cookie_map(out@);
                let ghost pair = (name@, value@);
                cookie_upsert(&mut out, name, value);
                proof {
                    if p < n {
                        let tail = cookie_list_of(header@.skip(p as int + 1));
                        assert(remaining.skip(p as int - start as int + 1) =~= header@.skip(
                            p as int + 1,
                        ));
                        assert(cookie_list_of(remaining) == seq![pair] + tail);
                        assert((seq![pair] + tail)[0] == pair);
                        assert((seq![pair] + tail).drop_first() =~~= tail);
                        assert(upsert_all(m, cookie_list_of(remaining)) == upsert_all(
                            m.insert(pair.0, pair.1),
                            tail,
                        ));
                        assert(upsert_all(cookie_map(out@), tail) == upsert_all(
                            Map::<Seq<char>, Seq<char>>::empty(),
                            cookie_list_of(header@),
                        ));
                    } else {
                        assert(cookie_list_of(remaining) == seq![pair]);
                        assert(seq![pair][0] == pair);
                        assert(seq![pair].drop_first() =~~= Seq::<(Seq<char>, Seq<char>)>::empty());
                        assert(upsert_all(m, cookie_list_of(remaining)) == upsert_all(
                            m.insert(pair.0, pair.1),
                            seq![pair].drop_first(),
                        ));
                        assert(cookie_map(out@) == upsert_all(
                            Map::<Seq<char>, Seq<char>>::empty(),
                            cookie_list_of(header@),
                        ));
                    }
                }
            },
            None => {
                proof {
                    if p < n {
                        assert(remaining.skip(p as int - start as int + 1) =~= header@.skip(
                            p as int + 1,
                        ));
                        assert(opt_cookie(remaining.take(p as int - start as int))
                            =~~= Seq::<(Seq<char>, Seq<char>)>::empty());
                        assert(cookie_list_of(remaining) =~~= cookie_list_of(
                            header@.skip(p as int + 1),
                        ));
                    } else {
                        assert(cookie_list_of(remaining)
                            =~~= Seq::<(Seq<char>, Seq<char>)>::empty());
                        assert(upsert_all(cookie_map(out@), cookie_list_of(remaining))
                            == cookie_map(out@));
                    }
                }
            },
        }
        if p < n {
            start = p + 1;
        } else {
            proof {
                assert(header@.skip(start as int) == remaining);
            }
            return out;
        }
    }
}

} // verus!
