//! Canonical field order.
//!
//! An instance's fields are canonicalized at construction time by sorting
//! the field names lexicographically (by character value), with a stable
//! insertion sort, so that two instances built from the same field set
//! compare and render identically regardless of source order.
use vstd::prelude::*;
use vstd::string::*;

use crate::ast::{clone_node, node_view, props_view, Node};
use crate::value::{fields_view, lemma_fields_view, str_eq, Object, Val};

verus! {

/// Lexicographic order on character sequences, by character value.
/// A proper prefix comes first; this relation is total.
pub open spec fn lex_le(x: Seq<char>, y: Seq<char>) -> bool
    decreases x.len(),
{
    if x.len() == 0 {
        true
    } else if y.len() == 0 {
        false
    } else if (x[0] as u32) < (y[0] as u32) {
        true
    } else if (y[0] as u32) < (x[0] as u32) {
        false
    } else {
        lex_le(x.drop_first(), y.drop_first())
    }
}

/// Field order: by name.
pub open spec fn le_key<T>(a: (Seq<char>, T), b: (Seq<char>, T)) -> bool {
    lex_le(a.0, b.0)
}

/// Inserts a field in front of the first entry whose name is not smaller.
pub open spec fn insert_sorted<T>(f: (Seq<char>, T), s: Seq<(Seq<char>, T)>) -> Seq<
    (Seq<char>, T),
>
    decreases s.len(),
{
    if s.len() == 0 {
        seq![f]
    } else if le_key(f, s[0]) {
        seq![f] + s
    } else {
        seq![s[0]] + insert_sorted(f, s.drop_first())
    }
}

/// The canonical (name-sorted) order of a field sequence: a stable
/// insertion sort by name.
pub open spec fn canon<T>(s: Seq<(Seq<char>, T)>) -> Seq<(Seq<char>, T)>
    decreases s.len(),
{
    if s.len() == 0 {
        s
    } else {
        insert_sorted(s[0], canon(s.drop_first()))
    }
}

/// Compares two strings in the order of `lex_le`.
pub fn str_lex_le(a: &String, b: &String) -> (r: bool)
    ensures
        r == lex_le(a@, b@),
{
    let sa = a.as_str();
    let sb = b.as_str();
    let la = sa.unicode_len();
    let lb = sb.unicode_len();
    proof {
        assert(a@.subrange(0, la as int) =~= a@);
        assert(b@.subrange(0, lb as int) =~= b@);
    }
    let mut i: usize = 0;
    while i < la && i < lb
        invariant
            i <= la,
            i <= lb,
            la == a@.len(),
            lb == b@.len(),
            sa@ == a@,
            sb@ == b@,
            lex_le(a@, b@) == lex_le(
                a@.subrange(i as int, la as int),
                b@.subrange(i as int, lb as int),
            ),
        decreases la - i,
    {
        let ca = sa.get_char(i);
        let cb = sb.get_char(i);
        let ghost ta = a@.subrange(i as int, la as int);
        let ghost tb = b@.subrange(i as int, lb as int);
        if (ca as u32) < (cb as u32) {
            proof {
                assert(ta[0] == ca && tb[0] == cb);
            }
            return true;
        }
        if (cb as u32) < (ca as u32) {
            proof {
                assert(ta[0] == ca && tb[0] == cb);
            }
            return false;
        }
        proof {
            assert(ta[0] == ca && tb[0] == cb);
            assert(ta.drop_first() =~= a@.subrange(i + 1, la as int));
            assert(tb.drop_first() =~= b@.subrange(i + 1, lb as int));
        }
        i += 1;
    }
    if i == la {
        proof {
            assert(a@.subrange(i as int, la as int).len() == 0);
        }
        true
    } else {
        proof {
            assert(b@.subrange(i as int, lb as int).len() == 0);
            assert(a@.subrange(i as int, la as int).len() > 0);
        }
        false
    }
}

/// `insert_sorted` at the first fitting position is a sequence splice.
proof fn lemma_insert_sorted_at<T>(f: (Seq<char>, T), s: Seq<(Seq<char>, T)>, j: int)
    requires
        0 <= j <= s.len(),
        forall|k: int| 0 <= k < j ==> !le_key(f, s[k]),
        j < s.len() ==> le_key(f, s[j]),
    ensures
        insert_sorted(f, s) == s.subrange(0, j) + seq![f] + s.subrange(j, s.len() as int),
    decreases s.len(),
{
    if s.len() == 0 {
        assert(insert_sorted(f, s) =~= s.subrange(0, j) + seq![f] + s.subrange(
            j,
            s.len() as int,
        ));
    } else if j == 0 {
        assert(insert_sorted(f, s) =~= s.subrange(0, 0) + seq![f] + s.subrange(
            0,
            s.len() as int,
        ));
    } else {
        let t = s.drop_first();
        assert(forall|k: int| 0 <= k < j - 1 ==> t[k] == s[k + 1]);
        lemma_insert_sorted_at(f, t, j - 1);
        assert(t.subrange(0, j - 1) =~= s.subrange(1, j));
        assert(t.subrange(j - 1, t.len() as int) =~= s.subrange(j, s.len() as int));
        assert(seq![s[0]] + (s.subrange(1, j) + seq![f] + s.subrange(j, s.len() as int))
            =~= s.subrange(0, j) + seq![f] + s.subrange(j, s.len() as int));
    }
}

/// The first position in `sorted` whose entry's name is not smaller than
/// `name`; the length when every name is smaller.
fn find_insert_pos(name: &String, sorted: &Vec<(String, Object)>) -> (j: usize)
    ensures
        j <= sorted@.len(),
        forall|k: int| 0 <= k < j ==> !le_key((name@, arbitrary()), fields_view(sorted@)[k]),
        j < sorted@.len() ==> le_key((name@, arbitrary()), fields_view(sorted@)[j as int]),
{
    proof {
        lemma_fields_view(sorted@);
    }
    let ghost sv = fields_view(sorted@);
    let mut j: usize = 0;
    while j < sorted.len()
        invariant
            j <= sorted@.len(),
            sv == fields_view(sorted@),
            sv.len() == sorted@.len(),
            forall|k: int| 0 <= k < sv.len() ==> sv[k].0 == sorted@[k].0@,
            forall|k: int| 0 <= k < j ==> !lex_le(name@, sv[k].0),
        decreases sorted@.len() - j,
    {
        if str_lex_le(name, &sorted[j].0) {
            return j;
        }
        j += 1;
    }
    j
}

/// Inserts a field into a vector at the first position whose name is not
/// smaller, mirroring `insert_sorted`.
pub fn insert_field(f: (String, Object), sorted: &mut Vec<(String, Object)>)
    ensures
        fields_view(final(sorted)@) == insert_sorted((f.0@, f.1@), fields_view(old(sorted)@)),
{
    proof {
        lemma_fields_view(sorted@);
    }
    let ghost fv = (f.0@, f.1@);
    let ghost sv = fields_view(sorted@);
    let j = find_insert_pos(&f.0, sorted);
    proof {
        lemma_insert_sorted_at(fv, sv, j as int);
    }
    sorted.insert(j, f);
    proof {
        lemma_fields_view(sorted@);
        assert(fields_view(sorted@) =~= sv.subrange(0, j as int) + seq![fv] + sv.subrange(
            j as int,
            sv.len() as int,
        ));
    }
}

/// The value half of a field entry, as a view.
pub open spec fn val_view_of(e: (String, Object)) -> Val {
    crate::value::val_view(e.1)
}

/// Sorts the fields of `fields` from index `i` on into canonical order,
/// mirroring `canon`.
pub fn sort_fields_from(fields: &Vec<(String, Object)>, i: usize) -> (r: Vec<(String, Object)>)
    requires
        i <= fields@.len(),
    ensures
        fields_view(r@) == canon(
            fields_view(fields@).subrange(i as int, fields@.len() as int),
        ),
    decreases fields@.len() - i,
{
    proof {
        lemma_fields_view(fields@);
    }
    let ghost whole = fields_view(fields@);
    if i == fields.len() {
        let r: Vec<(String, Object)> = Vec::new();
        proof {
            lemma_fields_view(r@);
            assert(fields_view(r@) =~= whole.subrange(i as int, fields@.len() as int));
        }
        r
    } else {
        let mut rest = sort_fields_from(fields, i + 1);
        let (name, val) = &fields[i];
        insert_field((name.clone(), crate::value::clone_obj(val)), &mut rest);
        proof {
            let sub = whole.subrange(i as int, fields@.len() as int);
            assert(sub[0] == (fields@[i as int].0@, crate::value::val_view(fields@[i as int].1)));
            assert(sub.drop_first() =~= whole.subrange(i + 1, fields@.len() as int));
        }
        rest
    }
}

/// Whether the fields are in canonical order: names ascending.
pub open spec fn sorted_fields<T>(s: Seq<(Seq<char>, T)>) -> bool {
    forall|i: int, j: int| 0 <= i < j < s.len() ==> lex_le(s[i].0, s[j].0)
}

/// Whether no two fields share a name.
pub open spec fn distinct_keys<T>(s: Seq<(Seq<char>, T)>) -> bool {
    forall|i: int, j: int| 0 <= i < j < s.len() ==> s[i].0 != s[j].0
}

/// `lex_le` is total.
pub proof fn lemma_lex_le_total(x: Seq<char>, y: Seq<char>)
    ensures
        lex_le(x, y) || lex_le(y, x),
    decreases x.len(),
{
    if x.len() > 0 && y.len() > 0 && !((x[0] as u32) < (y[0] as u32)) && !((y[0] as u32) < (
    x[0] as u32)) {
        lemma_lex_le_total(x.drop_first(), y.drop_first());
    }
}

/// Two characters with the same scalar value are the same character.
proof fn lemma_char_eq(a: char, b: char)
    requires
        a as u32 == b as u32,
    ensures
        a == b,
{
}

/// `lex_le` is antisymmetric.
pub proof fn lemma_lex_le_antisym(x: Seq<char>, y: Seq<char>)
    requires
        lex_le(x, y),
        lex_le(y, x),
    ensures
        x == y,
    decreases x.len(),
{
    if x.len() == 0 {
        assert(y.len() == 0);
        assert(x =~= y);
    } else {
        assert(y.len() > 0);
        assert((x[0] as u32) == (y[0] as u32));
        lemma_char_eq(x[0], y[0]);
        lemma_lex_le_antisym(x.drop_first(), y.drop_first());
        assert forall|i: int| 0 <= i < x.len() implies x[i] == y[i] by {
            if i > 0 {
                assert(x[i] == x.drop_first()[i - 1]);
                assert(y[i] == y.drop_first()[i - 1]);
            }
        }
        assert(x =~= y);
    }
}

/// `lex_le` is transitive.
pub proof fn lemma_lex_le_trans(x: Seq<char>, y: Seq<char>, z: Seq<char>)
    requires
        lex_le(x, y),
        lex_le(y, z),
    ensures
        lex_le(x, z),
    decreases x.len(),
{
    if x.len() > 0 && y.len() > 0 && z.len() > 0 {
        let xv = x[0] as u32;
        let yv = y[0] as u32;
        let zv = z[0] as u32;
        if xv < yv {
            assert(yv <= zv);
            assert(xv < zv);
        } else {
            assert(xv == yv);
            if yv < zv {
                assert(xv < zv);
            } else {
                assert(yv == zv);
                lemma_char_eq(x[0], y[0]);
                lemma_char_eq(y[0], z[0]);
                lemma_lex_le_trans(x.drop_first(), y.drop_first(), z.drop_first());
            }
        }
    }
}

/// Inserting into a sorted field list keeps it sorted and adds exactly the
/// inserted field to the multiset.
pub proof fn lemma_insert_sorted_props<T>(f: (Seq<char>, T), s: Seq<(Seq<char>, T)>)
    requires
        sorted_fields(s),
    ensures
        sorted_fields(insert_sorted(f, s)),
        insert_sorted(f, s).to_multiset() == s.to_multiset().insert(f),
        insert_sorted(f, s).len() == s.len() + 1,
        forall|x: (Seq<char>, T)|
            #[trigger] insert_sorted(f, s).contains(x) ==> x == f || s.contains(x),
    decreases s.len(),
{
    broadcast use vstd::seq_lib::group_to_multiset_ensures;

    let r = insert_sorted(f, s);
    if s.len() == 0 {
        assert(seq![f] =~= Seq::<(Seq<char>, T)>::empty().push(f));
        assert(r.to_multiset() =~= s.to_multiset().insert(f));
        assert(forall|x: (Seq<char>, T)| r.contains(x) ==> x == f || s.contains(x)) by {
            assert(forall|x: (Seq<char>, T)| r.contains(x) ==> r[0] == x);
        }
    } else if le_key(f, s[0]) {
        assert(r =~= seq![f] + s);
        assert(seq![f] + s =~= s.insert(0, f));
        lemma_seq_insert_to_multiset(s, 0, f);
        assert(forall|i: int, j: int| 0 <= i < j < r.len() ==> lex_le(r[i].0, r[j].0)) by {
            assert(forall|j: int| 1 <= j < r.len() ==> r[j] == s[j - 1]);
            assert forall|j: int| 1 <= j < r.len() implies lex_le(f.0, r[j].0) by {
                if j > 1 {
                    assert(lex_le(s[0].0, s[j - 1].0));
                    lemma_lex_le_trans(f.0, s[0].0, s[j - 1].0);
                }
            }
        }
        assert(forall|x: (Seq<char>, T)| #[trigger] r.contains(x) ==> x == f || s.contains(x))
            by {
            assert forall|x: (Seq<char>, T)| #[trigger] r.contains(x) implies x == f
                || s.contains(x) by {
                let i = choose|i: int| 0 <= i < r.len() && r[i] == x;
                if i > 0 {
                    assert(s[i - 1] == x);
                }
            }
        }
    } else {
        let t = s.drop_first();
        assert(sorted_fields(t)) by {
            assert(forall|i: int, j: int|
                0 <= i < j < t.len() ==> t[i] == s[i + 1] && t[j] == s[j + 1]);
        }
        lemma_insert_sorted_props(f, t);
        let rt = insert_sorted(f, t);
        assert(r =~= seq![s[0]] + rt);
        lemma_lex_le_total(f.0, s[0].0);
        assert(lex_le(s[0].0, f.0));
        assert(sorted_fields(r)) by {
            assert(forall|j: int| 1 <= j < r.len() ==> r[j] == rt[j - 1]);
            assert forall|j: int| 1 <= j < r.len() implies lex_le(r[0].0, r[j].0) by {
                assert(rt.contains(rt[j - 1]));
                if rt[j - 1] == f {
                } else {
                    assert(t.contains(rt[j - 1]));
                    let i = choose|i: int| 0 <= i < t.len() && t[i] == rt[j - 1];
                    assert(t[i] == s[i + 1]);
                    assert(lex_le(s[0].0, s[i + 1].0));
                }
            }
            assert(forall|i: int, j: int|
                1 <= i < j < r.len() ==> lex_le(r[i].0, r[j].0));
        }
        assert(seq![s[0]] + rt =~= rt.insert(0, s[0]));
        lemma_seq_insert_to_multiset(rt, 0, s[0]);
        assert(s =~= t.insert(0, s[0]));
        lemma_seq_insert_to_multiset(t, 0, s[0]);
        assert(r.to_multiset() =~= s.to_multiset().insert(f));
        assert forall|x: (Seq<char>, T)| #[trigger] r.contains(x) implies x == f
            || s.contains(x) by {
            let i = choose|i: int| 0 <= i < r.len() && r[i] == x;
            if i == 0 {
                assert(s[0] == x);
            } else {
                assert(rt.contains(rt[i - 1]));
                if rt[i - 1] == f {
                } else {
                    assert(t.contains(rt[i - 1]));
                    let k = choose|k: int| 0 <= k < t.len() && t[k] == x;
                    assert(s[k + 1] == x);
                }
            }
        }
    }
}

/// Inserting an element anywhere in a sequence inserts it into the
/// multiset.
pub proof fn lemma_seq_insert_to_multiset<T>(s: Seq<(Seq<char>, T)>, i: int, f: (Seq<char>, T))
    requires
        0 <= i <= s.len(),
    ensures
        s.insert(i, f).to_multiset() == s.to_multiset().insert(f),
    decreases s.len() - i,
{
    broadcast use vstd::seq_lib::group_to_multiset_ensures;

    if i == s.len() {
        assert(s.insert(i, f) =~= s.push(f));
    } else {
        let r = s.insert(i, f);
        assert(r.remove(i) =~= s);
        assert(r[i] == f);
        assert(r.remove(i).to_multiset() =~= r.to_multiset().remove(f));
        assert(s.to_multiset().insert(f) =~= r.to_multiset()) by {
            assert(r.to_multiset().count(f) >= 1) by {
                assert(r.contains(f));
            }
            assert(s.to_multiset() =~= r.to_multiset().remove(f));
        }
    }
}

/// The canonical order is sorted and holds exactly the given fields.
pub proof fn lemma_canon_props<T>(s: Seq<(Seq<char>, T)>)
    ensures
        sorted_fields(canon(s)),
        canon(s).to_multiset() == s.to_multiset(),
        canon(s).len() == s.len(),
    decreases s.len(),
{
    broadcast use vstd::seq_lib::group_to_multiset_ensures;

    if s.len() > 0 {
        lemma_canon_props(s.drop_first());
        lemma_insert_sorted_props(s[0], canon(s.drop_first()));
        assert(s =~= s.drop_first().insert(0, s[0]));
        lemma_seq_insert_to_multiset(s.drop_first(), 0, s[0]);
    }
}

/// Two sorted field lists with distinct names and the same multiset are
/// the same list.
pub proof fn lemma_sorted_distinct_unique<T>(s1: Seq<(Seq<char>, T)>, s2: Seq<(Seq<char>, T)>)
    requires
        sorted_fields(s1),
        sorted_fields(s2),
        distinct_keys(s1),
        distinct_keys(s2),
        s1.to_multiset() == s2.to_multiset(),
    ensures
        s1 == s2,
    decreases s1.len(),
{
    broadcast use vstd::seq_lib::group_to_multiset_ensures;

    if s1.len() == 0 {
        assert(s2.to_multiset().len() == 0);
        assert(s1 =~= s2);
    } else {
        assert(s1.to_multiset().len() == s1.len());
        assert(s2.to_multiset().len() == s2.len());
        assert(s2.len() == s1.len());
        assert(s1.contains(s1[0]));
        assert(s1.to_multiset().count(s1[0]) > 0);
        assert(s2.to_multiset().count(s1[0]) > 0);
        assert(s2.contains(s1[0]));
        let j = choose|j: int| 0 <= j < s2.len() && s2[j] == s1[0];
        assert(s2.contains(s2[0]));
        assert(s2.to_multiset().count(s2[0]) > 0);
        assert(s1.to_multiset().count(s2[0]) > 0);
        assert(s1.contains(s2[0]));
        let i = choose|i: int| 0 <= i < s1.len() && s1[i] == s2[0];
        assert(lex_le(s2[0].0, s2[j].0) || j == 0);
        assert(lex_le(s1[0].0, s1[i].0) || i == 0);
        assert(lex_le(s2[0].0, s1[0].0) || j == 0);
        assert(lex_le(s1[0].0, s2[0].0) || i == 0);
        assert(s1[0] == s2[0]) by {
            if i == 0 || j == 0 {
            } else {
                lemma_lex_le_antisym(s1[0].0, s2[0].0);
                assert(s1[0].0 == s2[0].0);
                assert(s1[i].0 == s1[0].0);
                assert(i == 0);
            }
        }
        let t1 = s1.drop_first();
        let t2 = s2.drop_first();
        assert(t1 =~= s1.remove(0));
        assert(t2 =~= s2.remove(0));
        assert(t1.to_multiset() =~= t2.to_multiset());
        assert(sorted_fields(t1) && distinct_keys(t1)) by {
            assert(forall|i: int, j: int| 0 <= i < j < t1.len() ==> t1[i] == s1[i + 1] && t1[j]
                == s1[j + 1]);
        }
        assert(sorted_fields(t2) && distinct_keys(t2)) by {
            assert(forall|i: int, j: int| 0 <= i < j < t2.len() ==> t2[i] == s2[i + 1] && t2[j]
                == s2[j + 1]);
        }
        lemma_sorted_distinct_unique(t1, t2);
        assert(forall|i: int| 1 <= i < s1.len() ==> s1[i] == t1[i - 1]);
        assert(forall|i: int| 1 <= i < s2.len() ==> s2[i] == t2[i - 1]);
        assert(s1 =~= s2);
    }
}

/// The canonical field order of a field set does not depend on the order
/// the fields were given in: lists with the same multiset of fields and
/// distinct names canonicalize identically.
pub proof fn lemma_canon_permutation<T>(s1: Seq<(Seq<char>, T)>, s2: Seq<(Seq<char>, T)>)
    requires
        s1.to_multiset() == s2.to_multiset(),
        distinct_keys(s1),
        distinct_keys(s2),
    ensures
        canon(s1) == canon(s2),
{
    lemma_canon_props(s1);
    lemma_canon_props(s2);
    assert(distinct_keys(canon(s1))) by {
        lemma_distinct_carries(s1);
    }
    assert(distinct_keys(canon(s2))) by {
        lemma_distinct_carries(s2);
    }
    lemma_sorted_distinct_unique(canon(s1), canon(s2));
}

/// Distinct names carry over to any list with the same multiset.
proof fn lemma_distinct_carries<T>(s: Seq<(Seq<char>, T)>)
    requires
        distinct_keys(s),
    ensures
        distinct_keys(canon(s)),
{
    broadcast use vstd::seq_lib::group_to_multiset_ensures;

    lemma_canon_props(s);
    let c = canon(s);
    assert forall|i: int, j: int| 0 <= i < j < c.len() implies c[i].0 != c[j].0 by {
        if c[i] == c[j] {
            assert(c.remove(i).to_multiset() == c.to_multiset().remove(c[i]));
            assert(forall|k: int| 0 <= k < j - 1 && k >= i ==> c.remove(i)[k] == c[k + 1]);
            assert(c.remove(i)[j - 1] == c[j]);
            assert(c.remove(i).contains(c[j]));
            assert(c.remove(i).to_multiset().count(c[j]) > 0);
            assert(c.to_multiset().count(c[i]) >= 2);
            assert(s.to_multiset().count(c[i]) >= 2);
            lemma_count_at_most_one(s, c[i]);
        } else {
            assert(c.contains(c[i]));
            assert(c.contains(c[j]));
            assert(s.to_multiset().count(c[i]) > 0);
            assert(s.to_multiset().count(c[j]) > 0);
            assert(s.contains(c[i]));
            assert(s.contains(c[j]));
            let a = choose|a: int| 0 <= a < s.len() && s[a] == c[i];
            let b = choose|b: int| 0 <= b < s.len() && s[b] == c[j];
            assert(a != b);
            if c[i].0 == c[j].0 {
                if a < b {
                    assert(s[a].0 != s[b].0);
                } else {
                    assert(s[b].0 != s[a].0);
                }
            }
        }
    }
}

/// With distinct names no field occurs twice in the multiset.
proof fn lemma_count_at_most_one<T>(s: Seq<(Seq<char>, T)>, x: (Seq<char>, T))
    requires
        distinct_keys(s),
    ensures
        s.to_multiset().count(x) <= 1,
{
    broadcast use vstd::seq_lib::group_to_multiset_ensures;

    if s.to_multiset().count(x) >= 2 {
        assert(s.contains(x));
        let i = choose|i: int| 0 <= i < s.len() && s[i] == x;
        assert(s.remove(i).to_multiset() == s.to_multiset().remove(x));
        assert(s.remove(i).to_multiset().count(x) >= 1);
        assert(s.remove(i).contains(x));
        let t = s.remove(i);
        let j = choose|j: int| 0 <= j < t.len() && t[j] == x;
        if j < i {
            assert(s[j] == x);
            assert(s[j].0 != s[i].0);
        } else {
            assert(s[j + 1] == x);
            assert(s[i].0 != s[j + 1].0);
        }
    }
}

/// Sorts a field list into canonical order.
pub fn sort_fields(fields: &Vec<(String, Object)>) -> (r: Vec<(String, Object)>)
    ensures
        fields_view(r@) == canon(fields_view(fields@)),
{
    let r = sort_fields_from(fields, 0);
    proof {
        lemma_fields_view(fields@);
        assert(fields_view(fields@).subrange(0, fields@.len() as int) =~= fields_view(fields@));
    }
    r
}


/// The first position in `sorted` whose entry's name is not smaller than
/// `name`; the length when every name is smaller.
fn find_insert_pos_prop(name: &String, sorted: &Vec<(String, Node)>) -> (j: usize)
    ensures
        j <= sorted@.len(),
        forall|k: int| 0 <= k < j ==> !le_key((name@, arbitrary()), props_view(sorted@)[k]),
        j < sorted@.len() ==> le_key((name@, arbitrary()), props_view(sorted@)[j as int]),
{
    proof {
        crate::ast::lemma_props_view(sorted@);
    }
    let ghost sv = props_view(sorted@);
    let mut j: usize = 0;
    while j < sorted.len()
        invariant
            j <= sorted@.len(),
            sv == props_view(sorted@),
            sv.len() == sorted@.len(),
            forall|k: int| 0 <= k < sv.len() ==> sv[k].0 == sorted@[k].0@,
            forall|k: int| 0 <= k < j ==> !lex_le(name@, sv[k].0),
        decreases sorted@.len() - j,
    {
        if str_lex_le(name, &sorted[j].0) {
            return j;
        }
        j += 1;
    }
    j
}

/// Inserts a named sub-tree into a vector at the first position whose name
/// is not smaller, mirroring `insert_sorted`.
fn insert_prop(f: (String, Node), sorted: &mut Vec<(String, Node)>)
    ensures
        props_view(final(sorted)@) == insert_sorted(
            (f.0@, node_view(f.1)),
            props_view(old(sorted)@),
        ),
{
    proof {
        crate::ast::lemma_props_view(sorted@);
    }
    let ghost fv = (f.0@, node_view(f.1));
    let ghost sv = props_view(sorted@);
    let j = find_insert_pos_prop(&f.0, sorted);
    proof {
        lemma_insert_sorted_at(fv, sv, j as int);
    }
    sorted.insert(j, f);
    proof {
        crate::ast::lemma_props_view(sorted@);
        assert(props_view(sorted@) =~= sv.subrange(0, j as int) + seq![fv] + sv.subrange(
            j as int,
            sv.len() as int,
        ));
    }
}

/// Sorts the named sub-trees of `props` from index `i` on into canonical
/// order, mirroring `canon`.
fn sort_props_from(props: &Vec<(String, Node)>, i: usize) -> (r: Vec<(String, Node)>)
    requires
        i <= props@.len(),
    ensures
        props_view(r@) == canon(props_view(props@).subrange(i as int, props@.len() as int)),
    decreases props@.len() - i,
{
    proof {
        crate::ast::lemma_props_view(props@);
    }
    let ghost whole = props_view(props@);
    if i == props.len() {
        let r: Vec<(String, Node)> = Vec::new();
        proof {
            crate::ast::lemma_props_view(r@);
            assert(props_view(r@) =~= whole.subrange(i as int, props@.len() as int));
        }
        r
    } else {
        let mut rest = sort_props_from(props, i + 1);
        let (name, node) = &props[i];
        insert_prop((name.clone(), clone_node(node)), &mut rest);
        proof {
            let sub = whole.subrange(i as int, props@.len() as int);
            assert(sub[0] == (props@[i as int].0@, node_view(props@[i as int].1)));
            assert(sub.drop_first() =~= whole.subrange(i + 1, props@.len() as int));
        }
        rest
    }
}

/// Sorts a named sub-tree list into canonical order.
pub fn sort_props(props: &Vec<(String, Node)>) -> (r: Vec<(String, Node)>)
    ensures
        props_view(r@) == canon(props_view(props@)),
{
    let r = sort_props_from(props, 0);
    proof {
        crate::ast::lemma_props_view(props@);
        assert(props_view(props@).subrange(0, props@.len() as int) =~= props_view(props@));
    }
    r
}

} // verus!
