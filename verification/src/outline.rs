//! Writing a tree of values as indented text, one line per scalar: the
//! text output format of the command line client.

use vstd::prelude::*;

use crate::text::push_char;

verus! {

/// A value to write as text: a scalar already written as text, a list of
/// values, or an object of named values.
pub enum TextValue {
    Scalar(String),
    List(Vec<TextValue>),
    Object(Vec<(String, TextValue)>),
}

/// `n` spaces.
pub open spec fn pad(n: nat) -> Seq<char> {
    Seq::new(n, |i: int| ' ')
}

/// How deeply the lists and objects of `v` nest.
pub open spec fn depth(v: TextValue) -> nat
    decreases v,
{
    match v {
        TextValue::Scalar(_) => 0,
        TextValue::List(items) => 1 + list_depth(items@),
        TextValue::Object(entries) => 1 + object_depth(entries@),
    }
}

/// How deeply the deepest of `items` nests.
pub open spec fn list_depth(items: Seq<TextValue>) -> nat
    decreases items,
{
    if items.len() == 0 {
        0
    } else {
        let a = list_depth(items.drop_last());
        let b = depth(items.last());
        if a >= b {
            a
        } else {
            b
        }
    }
}

/// How deeply the deepest value of `entries` nests.
pub open spec fn object_depth(entries: Seq<(String, TextValue)>) -> nat
    decreases entries,
{
    if entries.len() == 0 {
        0
    } else {
        let a = object_depth(entries.drop_last());
        let b = depth(entries.last().1);
        if a >= b {
            a
        } else {
            b
        }
    }
}

/// The lines that write `v` at the indentation `indent`: a scalar on a
/// line of its own; each item of a list after `- `, or alone on a line of
/// `-` and then two columns further in when it is a list or an object;
/// each entry of an object after its name and `: `, or after a line of
/// its name and `:` and then two columns further in when it is a list or
/// an object.
pub open spec fn value_lines(v: TextValue, indent: nat) -> Seq<Seq<char>>
    decreases v,
{
    match v {
        TextValue::Scalar(s) => seq![pad(indent) + s@],
        TextValue::List(items) => list_lines(items@, indent),
        TextValue::Object(entries) => object_lines(entries@, indent),
    }
}

/// The lines that write the items of a list at the indentation `indent`.
pub open spec fn list_lines(items: Seq<TextValue>, indent: nat) -> Seq<Seq<char>>
    decreases items,
{
    if items.len() == 0 {
        Seq::empty()
    } else {
        let before = list_lines(items.drop_last(), indent);
        match items.last() {
            TextValue::Scalar(s) => before.push(pad(indent) + seq!['-', ' '] + s@),
            item => before.push(pad(indent) + seq!['-']) + value_lines(item, indent + 2),
        }
    }
}

/// The lines that write the entries of an object at the indentation `indent`.
pub open spec fn object_lines(entries: Seq<(String, TextValue)>, indent: nat) -> Seq<Seq<char>>
    decreases entries,
{
    if entries.len() == 0 {
        Seq::empty()
    } else {
        let before = object_lines(entries.drop_last(), indent);
        let (k, v) = entries.last();
        match v {
            TextValue::Scalar(s) => before.push(pad(indent) + k@ + seq![':', ' '] + s@),
            _ => before.push(pad(indent) + k@ + seq![':']) + value_lines(v, indent + 2),
        }
    }
}

pub(crate) fn push_pad(s: &mut String, n: usize)
    ensures
        final(s)@ == old(s)@ + pad(n as nat),
{
    let mut i: usize = 0;
    while i < n
        invariant
            i <= n,
            s@ == old(s)@ + pad(i as nat),
        decreases n - i,
    {
        push_char(s, ' ');
        i = i + 1;
        assert(s@ =~= old(s)@ + pad(i as nat));
    }
}

/// Appends the lines that write `v` at the indentation `indent`.
pub fn push_value_lines(v: &TextValue, indent: usize, out: &mut Vec<String>)
    requires
        indent + 2 * depth(*v) <= usize::MAX,
    ensures
        final(out).deep_view() == old(out).deep_view() + value_lines(*v, indent as nat),
    decreases *v, 1nat,
{
    match v {
        TextValue::Scalar(s) => {
            let mut line = String::new();
            push_pad(&mut line, indent);
            line.append(s.as_str());
            let ghost before = out.deep_view();
            out.push(line);
            assert(out.deep_view() =~= before + value_lines(*v, indent as nat));
        },
        TextValue::List(items) => {
            push_list_lines(items, items.len(), indent, out);
            assert(items@.take(items@.len() as int) =~= items@);
        },
        TextValue::Object(entries) => {
            push_object_lines(entries, entries.len(), indent, out);
            assert(entries@.take(entries@.len() as int) =~= entries@);
        },
    }
}

proof fn lemma_list_depth(items: Seq<TextValue>, n: int)
    requires
        0 <= n <= items.len(),
    ensures
        list_depth(items.take(n)) <= list_depth(items),
        n > 0 ==> depth(items[n - 1]) <= list_depth(items),
    decreases items.len(),
{
    if n < items.len() {
        lemma_list_depth(items.drop_last(), n);
        assert(items.drop_last().take(n) =~= items.take(n));
        if n > 0 {
            assert(items.drop_last()[n - 1] == items[n - 1]);
        }
    } else {
        assert(items.take(n) =~= items);
    }
}

proof fn lemma_object_depth(entries: Seq<(String, TextValue)>, n: int)
    requires
        0 <= n <= entries.len(),
    ensures
        object_depth(entries.take(n)) <= object_depth(entries),
        n > 0 ==> depth(entries[n - 1].1) <= object_depth(entries),
    decreases entries.len(),
{
    if n < entries.len() {
        lemma_object_depth(entries.drop_last(), n);
        assert(entries.drop_last().take(n) =~= entries.take(n));
        if n > 0 {
            assert(entries.drop_last()[n - 1] == entries[n - 1]);
        }
    } else {
        assert(entries.take(n) =~= entries);
    }
}

/// Appends the lines that write the first `n` items of a list.
fn push_list_lines(items: &Vec<TextValue>, n: usize, indent: usize, out: &mut Vec<String>)
    requires
        n <= items@.len(),
        indent + 2 + 2 * list_depth(items@) <= usize::MAX,
    ensures
        final(out).deep_view() == old(out).deep_view() + list_lines(items@.take(n as int), indent as nat),
    decreases items@, n, 0nat,
{
    if n == 0 {
        assert(items@.take(0) =~= Seq::<TextValue>::empty());
        assert(old(out).deep_view() + Seq::<Seq<char>>::empty() =~= old(out).deep_view());
        return;
    }
    proof {
        lemma_list_depth(items@, n - 1);
        lemma_list_depth(items@, n as int);
        assert(items@.take(n as int).drop_last() =~= items@.take(n - 1));
        assert(items@.take(n as int).last() == items@[n - 1]);
    }
    push_list_lines(items, n - 1, indent, out);
    let ghost mid = out.deep_view();
    let item = &items[n - 1];
    match item {
        TextValue::Scalar(s) => {
            let mut line = String::new();
            push_pad(&mut line, indent);
            push_char(&mut line, '-');
            push_char(&mut line, ' ');
            line.append(s.as_str());
            assert(line@ =~= pad(indent as nat) + seq!['-', ' '] + s@);
            out.push(line);
            assert(out.deep_view() =~= mid.push(pad(indent as nat) + seq!['-', ' '] + s@));
        },
        _ => {
            let mut line = String::new();
            push_pad(&mut line, indent);
            push_char(&mut line, '-');
            assert(line@ =~= pad(indent as nat) + seq!['-']);
            out.push(line);
            assert(out.deep_view() =~= mid.push(pad(indent as nat) + seq!['-']));
            push_value_lines(item, indent + 2, out);
        },
    }
}

/// Appends the lines that write the first `n` entries of an object.
fn push_object_lines(
    entries: &Vec<(String, TextValue)>,
    n: usize,
    indent: usize,
    out: &mut Vec<String>,
)
    requires
        n <= entries@.len(),
        indent + 2 + 2 * object_depth(entries@) <= usize::MAX,
    ensures
        final(out).deep_view() == old(out).deep_view() + object_lines(entries@.take(n as int), indent as nat),
    decreases entries@, n, 0nat,
{
    if n == 0 {
        assert(entries@.take(0) =~= Seq::<(String, TextValue)>::empty());
        assert(old(out).deep_view() + Seq::<Seq<char>>::empty() =~= old(out).deep_view());
        return;
    }
    proof {
        lemma_object_depth(entries@, n - 1);
        lemma_object_depth(entries@, n as int);
        assert(entries@.take(n as int).drop_last() =~= entries@.take(n - 1));
        assert(entries@.take(n as int).last() == entries@[n - 1]);
    }
    push_object_lines(entries, n - 1, indent, out);
    let ghost mid = out.deep_view();
    let entry = &entries[n - 1];
    let key = &entry.0;
    let value = &entry.1;
    match value {
        TextValue::Scalar(s) => {
            let mut line = String::new();
            push_pad(&mut line, indent);
            line.append(key.as_str());
            push_char(&mut line, ':');
            push_char(&mut line, ' ');
            line.append(s.as_str());
            assert(line@ =~= pad(indent as nat) + key@ + seq![':', ' '] + s@);
            out.push(line);
            assert(out.deep_view() =~= mid.push(pad(indent as nat) + key@ + seq![':', ' '] + s@));
        },
        _ => {
            let mut line = String::new();
            push_pad(&mut line, indent);
            line.append(key.as_str());
            push_char(&mut line, ':');
            assert(line@ =~= pad(indent as nat) + key@ + seq![':']);
            out.push(line);
            assert(out.deep_view() =~= mid.push(pad(indent as nat) + key@ + seq![':']));
            push_value_lines(value, indent + 2, out);
        },
    }
}

/// Whether the lists and objects of `v` nest at most `limit` deep.
pub fn depth_within(v: &TextValue, limit: usize) -> (b: bool)
    ensures
        b == (depth(*v) <= limit),
    decreases *v, 1nat,
{
    match v {
        TextValue::Scalar(_) => true,
        TextValue::List(items) => {
            if limit == 0 {
                return false;
            }
            let b = items_within(items, items.len(), limit - 1);
            assert(items@.take(items@.len() as int) =~= items@);
            b
        },
        TextValue::Object(entries) => {
            if limit == 0 {
                return false;
            }
            let b = entries_within(entries, entries.len(), limit - 1);
            assert(entries@.take(entries@.len() as int) =~= entries@);
            b
        },
    }
}

/// Whether the first `n` items nest at most `limit` deep.
fn items_within(items: &Vec<TextValue>, n: usize, limit: usize) -> (b: bool)
    requires
        n <= items@.len(),
    ensures
        b == (list_depth(items@.take(n as int)) <= limit),
    decreases items@, n, 0nat,
{
    if n == 0 {
        return true;
    }
    proof {
        assert(items@.take(n as int).drop_last() =~= items@.take(n - 1));
        assert(items@.take(n as int).last() == items@[n - 1]);
    }
    if !items_within(items, n - 1, limit) {
        return false;
    }
    depth_within(&items[n - 1], limit)
}

/// Whether the values of the first `n` entries nest at most `limit` deep.
fn entries_within(entries: &Vec<(String, TextValue)>, n: usize, limit: usize) -> (b: bool)
    requires
        n <= entries@.len(),
    ensures
        b == (object_depth(entries@.take(n as int)) <= limit),
    decreases entries@, n, 0nat,
{
    if n == 0 {
        return true;
    }
    proof {
        assert(entries@.take(n as int).drop_last() =~= entries@.take(n - 1));
        assert(entries@.take(n as int).last() == entries@[n - 1]);
    }
    if !entries_within(entries, n - 1, limit) {
        return false;
    }
    depth_within(&entries[n - 1].1, limit)
}

/// Each scalar of a list of scalars is written on a line of its own,
/// after the indentation and `- `.
pub proof fn law_scalar_list_lines(items: Seq<TextValue>, indent: nat)
    requires
        forall|i: int| 0 <= i < items.len() ==> #[trigger] items[i] is Scalar,
    ensures
        list_lines(items, indent) == Seq::new(
            items.len(),
            |i: int| pad(indent) + seq!['-', ' '] + items[i]->Scalar_0@,
        ),
    decreases items.len(),
{
    if items.len() > 0 {
        let init = items.drop_last();
        assert forall|i: int| 0 <= i < init.len() implies #[trigger] init[i] is Scalar by {
            assert(init[i] == items[i]);
        }
        law_scalar_list_lines(init, indent);
        assert(items.last() == items[items.len() - 1]);
        assert(list_lines(items, indent) =~= Seq::new(
            items.len(),
            |i: int| pad(indent) + seq!['-', ' '] + items[i]->Scalar_0@,
        ));
    } else {
        assert(list_lines(items, indent) =~= Seq::new(
            items.len(),
            |i: int| pad(indent) + seq!['-', ' '] + items[i]->Scalar_0@,
        ));
    }
}

/// Each entry of an object whose values are scalars is written on a line
/// of its own: the indentation, the name, `: ` and the scalar.
pub proof fn law_scalar_object_lines(entries: Seq<(String, TextValue)>, indent: nat)
    requires
        forall|i: int| 0 <= i < entries.len() ==> (#[trigger] entries[i]).1 is Scalar,
    ensures
        object_lines(entries, indent) == Seq::new(
            entries.len(),
            |i: int| pad(indent) + entries[i].0@ + seq![':', ' '] + entries[i].1->Scalar_0@,
        ),
    decreases entries.len(),
{
    if entries.len() > 0 {
        let init = entries.drop_last();
        assert forall|i: int| 0 <= i < init.len() implies (#[trigger] init[i]).1 is Scalar by {
            assert(init[i] == entries[i]);
        }
        law_scalar_object_lines(init, indent);
        assert(entries.last() == entries[entries.len() - 1]);
    }
    assert(object_lines(entries, indent) =~= Seq::new(
        entries.len(),
        |i: int| pad(indent) + entries[i].0@ + seq![':', ' '] + entries[i].1->Scalar_0@,
    ));
}

/// An entry whose value is a list or an object is written as a line of
/// the indentation, the name and `:`, followed by the lines of the value
/// two columns further in; so is a list item after a line of `-`.
pub proof fn law_nested_lines(name: String, v: TextValue, indent: nat)
    requires
        !(v is Scalar),
    ensures
        object_lines(seq![(name, v)], indent) == seq![pad(indent) + name@ + seq![':']] + value_lines(
            v,
            indent + 2,
        ),
        list_lines(seq![v], indent) == seq![pad(indent) + seq!['-']] + value_lines(v, indent + 2),
{
    let e = seq![(name, v)];
    assert(e.drop_last() =~= Seq::<(String, TextValue)>::empty());
    assert(e.last() == (name, v));
    assert(object_lines(Seq::<(String, TextValue)>::empty(), indent) == Seq::<Seq<char>>::empty());
    assert(object_lines(e, indent) == object_lines(e.drop_last(), indent).push(
        pad(indent) + name@ + seq![':'],
    ) + value_lines(v, indent + 2));
    assert(Seq::<Seq<char>>::empty().push(pad(indent) + name@ + seq![':']) =~= seq![pad(indent) + name@ + seq![':']]);
    let l = seq![v];
    assert(l.drop_last() =~= Seq::<TextValue>::empty());
    assert(l.last() == v);
    assert(list_lines(Seq::<TextValue>::empty(), indent) == Seq::<Seq<char>>::empty());
    assert(list_lines(l, indent) == list_lines(l.drop_last(), indent).push(pad(indent) + seq!['-'])
        + value_lines(v, indent + 2));
    assert(Seq::<Seq<char>>::empty().push(pad(indent) + seq!['-']) =~= seq![pad(indent) + seq!['-']]);
}

/// The entries of two objects joined are written as the entries of the
/// first and then those of the second.
pub proof fn law_object_lines_joined(a: Seq<(String, TextValue)>, b: Seq<(String, TextValue)>, indent: nat)
    ensures
        object_lines(a + b, indent) == object_lines(a, indent) + object_lines(b, indent),
    decreases b.len(),
{
    if b.len() == 0 {
        assert(a + b =~= a);
        assert(object_lines(b, indent) =~= Seq::<Seq<char>>::empty());
        assert(object_lines(a, indent) + Seq::<Seq<char>>::empty() =~= object_lines(a, indent));
    } else {
        law_object_lines_joined(a, b.drop_last(), indent);
        assert((a + b).drop_last() =~= a + b.drop_last());
        assert((a + b).last() == b.last());
        let x = object_lines(a, indent);
        let y = object_lines(b.drop_last(), indent);
        let (k, v) = b.last();
        match v {
            TextValue::Scalar(t) => {
                assert((x + y).push(pad(indent) + k@ + seq![':', ' '] + t@) =~= x + y.push(
                    pad(indent) + k@ + seq![':', ' '] + t@,
                ));
            },
            _ => {
                assert((x + y).push(pad(indent) + k@ + seq![':']) + value_lines(v, indent + 2) =~= x + (
                y.push(pad(indent) + k@ + seq![':']) + value_lines(v, indent + 2)));
            },
        }
    }
}

/// The items of two lists joined are written as the items of the first
/// and then those of the second.
pub proof fn law_list_lines_joined(a: Seq<TextValue>, b: Seq<TextValue>, indent: nat)
    ensures
        list_lines(a + b, indent) == list_lines(a, indent) + list_lines(b, indent),
    decreases b.len(),
{
    if b.len() == 0 {
        assert(a + b =~= a);
        assert(list_lines(b, indent) =~= Seq::<Seq<char>>::empty());
        assert(list_lines(a, indent) + Seq::<Seq<char>>::empty() =~= list_lines(a, indent));
    } else {
        law_list_lines_joined(a, b.drop_last(), indent);
        assert((a + b).drop_last() =~= a + b.drop_last());
        assert((a + b).last() == b.last());
        let x = list_lines(a, indent);
        let y = list_lines(b.drop_last(), indent);
        let v = b.last();
        match v {
            TextValue::Scalar(t) => {
                assert((x + y).push(pad(indent) + seq!['-', ' '] + t@) =~= x + y.push(
                    pad(indent) + seq!['-', ' '] + t@,
                ));
            },
            _ => {
                assert((x + y).push(pad(indent) + seq!['-']) + value_lines(v, indent + 2) =~= x + (y.push(
                    pad(indent) + seq!['-'],
                ) + value_lines(v, indent + 2)));
            },
        }
    }
}

/// The lines that write `value` at the indentation `indent`.
pub fn text_lines(value: &TextValue, indent: usize) -> (lines: Vec<String>)
    requires
        indent + 2 * depth(*value) <= usize::MAX,
    ensures
        lines.deep_view() == value_lines(*value, indent as nat),
{
    let mut out: Vec<String> = Vec::new();
    push_value_lines(value, indent, &mut out);
    assert(Seq::<Seq<char>>::empty() + value_lines(*value, indent as nat) =~= value_lines(*value, indent as nat));
    out
}

} // verus!
