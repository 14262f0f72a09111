//! The class record and its order: by start, then name, then coach.

use vstd::prelude::*;

use crate::date::DateTime;
use crate::text::chars_of;

verus! {

/// One class of the schedule.
#[derive(Clone, Debug, PartialEq)]
pub struct ClassItem {
    /// Start of the class, on the site's wall clock.
    pub date: DateTime,
    /// Label of the class, never empty in parsed output.
    pub event_name: String,
    /// Coach's name; empty where the page gives none.
    pub coach: String,
    /// Length in minutes, where the time range could be read.
    pub duration_min: Option<u32>,
    /// Link to the schedule entry, or to the agenda page.
    pub source_url: String,
    /// Address of the class, where one was resolved.
    pub location: Option<String>,
}

/// What a `ClassItem` holds, with its text as character sequences.
pub struct ClassView {
    pub date: DateTime,
    pub event_name: Seq<char>,
    pub coach: Seq<char>,
    pub duration_min: Option<u32>,
    pub source_url: Seq<char>,
    pub location: Option<Seq<char>>,
}

pub open spec fn opt_view(s: Option<String>) -> Option<Seq<char>> {
    match s {
        Some(t) => Some(t@),
        None => None,
    }
}

impl View for ClassItem {
    type V = ClassView;

    open spec fn view(&self) -> ClassView {
        ClassView {
            date: self.date,
            event_name: self.event_name@,
            coach: self.coach@,
            duration_min: self.duration_min,
            source_url: self.source_url@,
            location: opt_view(self.location),
        }
    }
}

/// The views of a sequence of classes.
pub open spec fn views(s: Seq<ClassItem>) -> Seq<ClassView> {
    s.map_values(|c: ClassItem| c@)
}

/// Lexicographic order of character sequences by code point, which is the
/// order of `String`'s `Ord` (UTF-8 keeps the order of code points).
pub open spec fn chars_lt(a: Seq<char>, b: Seq<char>) -> bool
    decreases a.len(),
{
    if a.len() == 0 {
        b.len() > 0
    } else if b.len() == 0 {
        false
    } else if a[0] != b[0] {
        a[0] < b[0]
    } else {
        chars_lt(a.drop_first(), b.drop_first())
    }
}

/// Whether `a` comes strictly before `b`: by start, then by name, then by coach.
pub open spec fn class_before(a: ClassView, b: ClassView) -> bool {
    a.date.minute_index() < b.date.minute_index() || (a.date.minute_index()
        == b.date.minute_index() && (chars_lt(a.event_name, b.event_name) || (a.event_name
        == b.event_name && chars_lt(a.coach, b.coach))))
}

/// `s` with `x` inserted before the first item that `x` comes strictly
/// before, or at the end: later among equals, as a stable sort keeps them.
pub open spec fn insert_sorted(s: Seq<ClassView>, x: ClassView) -> Seq<ClassView>
    decreases s.len(),
{
    if s.len() == 0 {
        seq![x]
    } else if class_before(x, s[0]) {
        seq![x] + s
    } else {
        seq![s[0]] + insert_sorted(s.drop_first(), x)
    }
}

/// `s` sorted stably by `class_before`.
pub open spec fn sort_classes(s: Seq<ClassView>) -> Seq<ClassView>
    decreases s.len(),
{
    if s.len() == 0 {
        s
    } else {
        insert_sorted(sort_classes(s.drop_last()), s.last())
    }
}

pub open spec fn all_wf(s: Seq<ClassView>) -> bool {
    forall|i: int| 0 <= i < s.len() ==> (#[trigger] s[i]).date.wf()
}

proof fn lemma_chars_lt_skip(a: Seq<char>, b: Seq<char>, i: int)
    requires
        0 <= i <= a.len(),
        i <= b.len(),
        forall|j: int| 0 <= j < i ==> a[j] == b[j],
    ensures
        chars_lt(a, b) == chars_lt(a.skip(i), b.skip(i)),
    decreases i,
{
    if i > 0 {
        lemma_chars_lt_skip(a.drop_first(), b.drop_first(), i - 1);
        assert(a.drop_first().skip(i - 1) =~= a.skip(i));
        assert(b.drop_first().skip(i - 1) =~= b.skip(i));
    } else {
        assert(a.skip(0) =~= a);
        assert(b.skip(0) =~= b);
    }
}

/// Whether `a` comes strictly before `b` in code point order.
pub fn chars_less(a: &Vec<char>, b: &Vec<char>) -> (r: bool)
    ensures
        r == chars_lt(a@, b@),
{
    let mut i: usize = 0;
    while i < a.len() && i < b.len() && a[i] == b[i]
        invariant
            i <= a@.len(),
            i <= b@.len(),
            forall|j: int| 0 <= j < i ==> a@[j] == b@[j],
        decreases a@.len() - i,
    {
        i += 1;
    }
    proof {
        lemma_chars_lt_skip(a@, b@, i as int);
    }
    if i == a.len() {
        i < b.len()
    } else if i == b.len() {
        false
    } else {
        a[i] < b[i]
    }
}

/// Whether `a` comes strictly before `b`.
pub fn class_less(a: &ClassItem, b: &ClassItem) -> (r: bool)
    requires
        a.date.wf(),
        b.date.wf(),
    ensures
        r == class_before(a@, b@),
{
    let ka = a.date.sort_key();
    let kb = b.date.sort_key();
    if ka != kb {
        return ka < kb;
    }
    let na = chars_of(a.event_name.as_str());
    let nb = chars_of(b.event_name.as_str());
    if chars_less(&na, &nb) {
        return true;
    }
    if chars_less(&nb, &na) {
        proof {
            lemma_chars_lt_asym(nb@, na@);
        }
        return false;
    }
    proof {
        lemma_chars_lt_total(na@, nb@);
    }
    let ca = chars_of(a.coach.as_str());
    let cb = chars_of(b.coach.as_str());
    chars_less(&ca, &cb)
}

proof fn lemma_chars_lt_asym(a: Seq<char>, b: Seq<char>)
    requires
        chars_lt(a, b),
    ensures
        !chars_lt(b, a),
        a != b,
    decreases a.len(),
{
    if a.len() > 0 && b.len() > 0 && a[0] == b[0] {
        lemma_chars_lt_asym(a.drop_first(), b.drop_first());
    }
}

proof fn lemma_chars_lt_total(a: Seq<char>, b: Seq<char>)
    requires
        !chars_lt(a, b),
        !chars_lt(b, a),
    ensures
        a == b,
    decreases a.len(),
{
    if a.len() > 0 && b.len() > 0 {
        if a[0] == b[0] {
            lemma_chars_lt_total(a.drop_first(), b.drop_first());
            assert(a =~= seq![a[0]] + a.drop_first());
            assert(b =~= seq![b[0]] + b.drop_first());
        } else {
        }
    } else {
        assert(a.len() == 0 && b.len() == 0);
        assert(a =~= b);
    }
}

proof fn lemma_insert_at(s: Seq<ClassView>, x: ClassView, p: int)
    requires
        0 <= p <= s.len(),
        forall|j: int| 0 <= j < p ==> !class_before(x, #[trigger] s[j]),
        p == s.len() || class_before(x, s[p]),
    ensures
        insert_sorted(s, x) == s.insert(p, x),
    decreases p,
{
    if p > 0 {
        lemma_insert_at(s.drop_first(), x, p - 1);
        assert(seq![s[0]] + s.drop_first().insert(p - 1, x) =~= s.insert(p, x));
    } else if s.len() == 0 {
        assert(seq![x] =~= s.insert(0, x));
    } else {
        assert(seq![x] + s =~= s.insert(0, x));
    }
}

proof fn lemma_insert_wf(s: Seq<ClassView>, x: ClassView)
    requires
        all_wf(s),
        x.date.wf(),
    ensures
        all_wf(insert_sorted(s, x)),
    decreases s.len(),
{
    if s.len() > 0 && !class_before(x, s[0]) {
        lemma_insert_wf(s.drop_first(), x);
        let t = insert_sorted(s.drop_first(), x);
        assert forall|i: int| 0 <= i < 1 + t.len() implies (#[trigger] (seq![s[0]] + t)[i]).date.wf() by {
            if i > 0 {
                assert((seq![s[0]] + t)[i] == t[i - 1]);
            }
        }
    }
}

/// Sorting keeps every instant well formed.
pub proof fn lemma_sort_wf(s: Seq<ClassView>)
    requires
        all_wf(s),
    ensures
        all_wf(sort_classes(s)),
    decreases s.len(),
{
    if s.len() > 0 {
        lemma_sort_wf(s.drop_last());
        lemma_insert_wf(sort_classes(s.drop_last()), s.last());
    }
}

/// Whether the classes of `s` start in order.
pub open spec fn starts_sorted(s: Seq<ClassView>) -> bool {
    forall|i: int, j: int|
        0 <= i < j < s.len() ==> (#[trigger] s[i]).date.minute_index() <= (#[trigger] s[j]).date.minute_index()
}

proof fn lemma_insert_members(s: Seq<ClassView>, x: ClassView)
    ensures
        insert_sorted(s, x).len() == s.len() + 1,
        forall|i: int| 0 <= i < s.len() + 1 ==> #[trigger] insert_sorted(s, x)[i] == x || s.contains(insert_sorted(s, x)[i]),
        insert_sorted(s, x).contains(x),
        forall|j: int| 0 <= j < s.len() ==> insert_sorted(s, x).contains(#[trigger] s[j]),
    decreases s.len(),
{
    let ins = insert_sorted(s, x);
    if s.len() == 0 {
        assert(ins[0] == x);
    } else if class_before(x, s[0]) {
        assert(ins[0] == x);
        assert forall|j: int| 0 <= j < s.len() implies ins.contains(#[trigger] s[j]) by {
            assert(ins[j + 1] == s[j]);
        }
        assert forall|i: int| 0 <= i < s.len() + 1 implies #[trigger] ins[i] == x || s.contains(ins[i]) by {
            if i > 0 {
                assert(ins[i] == s[i - 1]);
            }
        }
    } else {
        let rest = s.drop_first();
        lemma_insert_members(rest, x);
        let t = insert_sorted(rest, x);
        let kx = choose|k: int| 0 <= k < t.len() && t[k] == x;
        assert(ins[kx + 1] == x);
        assert forall|j: int| 0 <= j < s.len() implies ins.contains(#[trigger] s[j]) by {
            if j == 0 {
                assert(ins[0] == s[0]);
            } else {
                assert(rest[j - 1] == s[j]);
                let k = choose|k: int| 0 <= k < t.len() && t[k] == rest[j - 1];
                assert(ins[k + 1] == s[j]);
            }
        }
        assert forall|i: int| 0 <= i < s.len() + 1 implies #[trigger] ins[i] == x || s.contains(ins[i]) by {
            if i == 0 {
                assert(ins[0] == s[0]);
            } else {
                assert(ins[i] == t[i - 1]);
                if t[i - 1] != x {
                    let j = choose|j: int| 0 <= j < rest.len() && rest[j] == t[i - 1];
                    assert(s[j + 1] == ins[i]);
                }
            }
        }
    }
}

/// Sorting keeps the number of classes, and every class it gives was given to it.
pub proof fn lemma_sort_members(s: Seq<ClassView>)
    ensures
        sort_classes(s).len() == s.len(),
        forall|i: int| 0 <= i < s.len() ==> s.contains(#[trigger] sort_classes(s)[i]),
        forall|j: int| 0 <= j < s.len() ==> sort_classes(s).contains(#[trigger] s[j]),
    decreases s.len(),
{
    if s.len() > 0 {
        let init = s.drop_last();
        lemma_sort_members(init);
        lemma_insert_members(sort_classes(init), s.last());
        let r = sort_classes(s);
        assert forall|j: int| 0 <= j < s.len() implies sort_classes(s).contains(#[trigger] s[j]) by {
            if j < s.len() - 1 {
                assert(init[j] == s[j]);
                let k = choose|k: int| 0 <= k < init.len() && sort_classes(init)[k] == init[j];
                assert(sort_classes(init)[k] == s[j]);
            }
        }
        assert forall|i: int| 0 <= i < s.len() implies s.contains(#[trigger] sort_classes(s)[i]) by {
            if r[i] == s.last() {
                assert(s[s.len() - 1] == r[i]);
            } else {
                let j = choose|j: int| 0 <= j < init.len() && sort_classes(init)[j] == r[i];
                let m = choose|m: int| 0 <= m < init.len() && init[m] == sort_classes(init)[j];
                assert(s[m] == r[i]);
            }
        }
    }
}

proof fn lemma_insert_starts_sorted(s: Seq<ClassView>, x: ClassView)
    requires
        starts_sorted(s),
    ensures
        starts_sorted(insert_sorted(s, x)),
    decreases s.len(),
{
    let ins = insert_sorted(s, x);
    if s.len() == 0 {
    } else if class_before(x, s[0]) {
        assert forall|i: int, j: int| 0 <= i < j < ins.len() implies (#[trigger] ins[i]).date.minute_index()
            <= (#[trigger] ins[j]).date.minute_index() by {
            if i == 0 {
                assert(ins[j] == s[j - 1]);
                if j > 1 {
                    assert(s[0].date.minute_index() <= s[j - 1].date.minute_index());
                }
            } else {
                assert(ins[i] == s[i - 1]);
                assert(ins[j] == s[j - 1]);
            }
        }
    } else {
        let rest = s.drop_first();
        assert(starts_sorted(rest)) by {
            assert forall|i: int, j: int| 0 <= i < j < rest.len() implies (#[trigger] rest[i]).date.minute_index()
                <= (#[trigger] rest[j]).date.minute_index() by {
                assert(rest[i] == s[i + 1] && rest[j] == s[j + 1]);
            }
        }
        lemma_insert_starts_sorted(rest, x);
        lemma_insert_members(rest, x);
        let t = insert_sorted(rest, x);
        assert forall|i: int, j: int| 0 <= i < j < ins.len() implies (#[trigger] ins[i]).date.minute_index()
            <= (#[trigger] ins[j]).date.minute_index() by {
            assert(ins[j] == t[j - 1]);
            if i == 0 {
                if t[j - 1] != x {
                    let m = choose|m: int| 0 <= m < rest.len() && rest[m] == t[j - 1];
                    assert(s[m + 1] == t[j - 1]);
                }
            } else {
                assert(ins[i] == t[i - 1]);
            }
        }
    }
}

/// Sorting puts the classes in order of their start.
pub proof fn lemma_sort_starts_sorted(s: Seq<ClassView>)
    ensures
        starts_sorted(sort_classes(s)),
    decreases s.len(),
{
    if s.len() > 0 {
        lemma_sort_starts_sorted(s.drop_last());
        lemma_insert_starts_sorted(sort_classes(s.drop_last()), s.last());
    }
}

/// `items` sorted stably by start, then name, then coach.
pub fn sort_classes_by_start(items: Vec<ClassItem>) -> (r: Vec<ClassItem>)
    requires
        all_wf(views(items@)),
    ensures
        views(r@) == sort_classes(views(items@)),
        all_wf(views(r@)),
{
    let ghost orig = views(items@);
    let mut rest = items;
    let mut out: Vec<ClassItem> = Vec::new();
    let ghost mut k: int = 0;
    assert(orig.take(0) =~= Seq::<ClassView>::empty());
    assert(views(out@) =~= Seq::<ClassView>::empty());
    assert(views(rest@) =~= orig.skip(0));
    while rest.len() > 0
        invariant
            0 <= k <= orig.len(),
            all_wf(orig),
            views(rest@) == orig.skip(k),
            views(out@) == sort_classes(orig.take(k)),
            all_wf(views(out@)),
        decreases rest@.len(),
    {
        let ghost before = rest@;
        assert(views(before).len() == before.len());
        let x = rest.remove(0);
        proof {
            assert(views(before)[0] == x@);
            assert(orig.skip(k)[0] == orig[k]);
            assert(x@ == orig[k]);
            assert(views(rest@) =~= orig.skip(k + 1)) by {
                assert(views(rest@) =~= views(before).drop_first());
            }
            assert(orig.take(k + 1).drop_last() =~= orig.take(k));
            assert(x.date.wf());
            assert forall|j: int| 0 <= j < out@.len() implies (#[trigger] out@[j]).date.wf() by {
                assert(views(out@)[j] == out@[j]@);
            }
        }
        let mut p: usize = 0;
        while p < out.len() && !class_less(&x, &out[p])
            invariant
                p <= out@.len(),
                all_wf(views(out@)),
                forall|j: int| 0 <= j < out@.len() ==> (#[trigger] out@[j]).date.wf(),
                x.date.wf(),
                forall|j: int| 0 <= j < p ==> !class_before(x@, #[trigger] views(out@)[j]),
            decreases out@.len() - p,
        {
            assert(views(out@)[p as int] == out@[p as int]@);
            p += 1;
        }
        proof {
            lemma_insert_at(views(out@), x@, p as int);
        }
        let ghost prev = out@;
        out.insert(p, x);
        proof {
            k = k + 1;
            assert(views(out@) =~= views(prev).insert(p as int, x@));
        }
    }
    proof {
        assert(orig.take(k) =~= orig);
        lemma_sort_wf(orig);
    }
    out
}

} // verus!
