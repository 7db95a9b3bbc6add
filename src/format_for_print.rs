//! How values are shown: decimal integers, floats with a comma, arrays and objects.
use vstd::prelude::*;
use vstd::string::StrSliceExecFns;

use crate::value::{field_views, lemma_field_views, lemma_views, views, ObjectField, StackValue, Val};

verus! {

/// The character of a decimal digit.
pub open spec fn digit_char(d: nat) -> char {
    if d == 0 { '0' }
    else if d == 1 { '1' }
    else if d == 2 { '2' }
    else if d == 3 { '3' }
    else if d == 4 { '4' }
    else if d == 5 { '5' }
    else if d == 6 { '6' }
    else if d == 7 { '7' }
    else if d == 8 { '8' }
    else { '9' }
}

/// The decimal digits of a natural number, most significant first.
pub open spec fn digits(n: nat) -> Seq<char>
    decreases n,
{
    if n < 10 {
        seq![digit_char(n)]
    } else {
        digits(n / 10).push(digit_char(n % 10))
    }
}

/// The decimal text of an integer, with a leading minus sign when it is negative.
pub open spec fn int_text(i: int) -> Seq<char> {
    if i < 0 {
        seq!['-'] + digits((-i) as nat)
    } else {
        digits(i as nat)
    }
}

/// A float's decimal text with the decimal point replaced by a comma.
pub open spec fn comma_text(t: Seq<char>) -> Seq<char> {
    t.map_values(|c: char| if c == '.' { ',' } else { c })
}

/// The text of a float as shown, when the host has supplied its decimal text.
pub open spec fn float_shown(bits: u64, texts: Map<u64, Seq<char>>) -> Option<Seq<char>> {
    if texts.contains_key(bits) {
        Some(comma_text(texts[bits]))
    } else {
        None
    }
}

/// The head of an object's text.
pub open spec fn object_head() -> Seq<char> {
    seq!['O', 'b', 'j', 'e', 'k', 't', 's', ' ', '{', '\n']
}

/// The text of a value, without a trailing newline; `None` when a float in it has no text.
pub open spec fn plain_text(v: Val, texts: Map<u64, Seq<char>>) -> Option<Seq<char>>
    decreases v,
{
    match v {
        Val::Bool(b) => Some(if b { seq!['1'] } else { seq!['0'] }),
        Val::Int(i) => Some(int_text(i)),
        Val::Float(bits) => float_shown(bits, texts),
        Val::Str(s) => Some(s),
        Val::Array(items) => match items_text(items, texts) {
            Some(t) => Some(seq!['['] + t + seq![']']),
            None => None,
        },
        Val::Object(fields) => match fields_text(fields, texts) {
            Some(t) => Some(object_head() + t + seq!['}']),
            None => None,
        },
    }
}

/// The elements of an array, separated by `;`, with strings in double quotes.
pub open spec fn items_text(items: Seq<Val>, texts: Map<u64, Seq<char>>) -> Option<Seq<char>>
    decreases items,
{
    if items.len() == 0 {
        Some(Seq::empty())
    } else {
        let init = items.subrange(0, items.len() - 1);
        let last = items[items.len() - 1];
        let shown = match last {
            Val::Str(s) => Some(seq!['"'] + s + seq!['"']),
            _ => plain_text(last, texts),
        };
        match (items_text(init, texts), shown) {
            (Some(a), Some(b)) => Some(if init.len() == 0 { b } else { a + seq![';'] + b }),
            _ => None,
        }
    }
}

/// The fields of an object, one line each: three spaces, the name, `: ` and the value.
pub open spec fn fields_text(fields: Seq<(Seq<char>, Val)>, texts: Map<u64, Seq<char>>) -> Option<
    Seq<char>,
>
    decreases fields,
{
    if fields.len() == 0 {
        Some(Seq::empty())
    } else {
        let init = fields.subrange(0, fields.len() - 1);
        let last = fields[fields.len() - 1];
        match (fields_text(init, texts), plain_text(last.1, texts)) {
            (Some(a), Some(b)) => Some(a + seq![' ', ' ', ' '] + last.0 + seq![':', ' '] + b + seq!['\n']),
            _ => None,
        }
    }
}

/// The text that printing a value shows, with a newline when asked for.
pub open spec fn print_text(v: Val, newline: bool, texts: Map<u64, Seq<char>>) -> Option<Seq<char>> {
    match plain_text(v, texts) {
        Some(t) => Some(if newline { t.push('\n') } else { t }),
        None => None,
    }
}

/// The decimal texts of floats that the host has supplied, one entry per bit pattern.
pub struct FloatTexts {
    entries: Vec<(u64, String)>,
}

impl FloatTexts {
    /// No bit pattern is recorded twice.
    pub closed spec fn wf(self) -> bool {
        forall|i: int, j: int|
            0 <= i < self.entries@.len() && 0 <= j < self.entries@.len() && i != j
                ==> self.entries@[i].0 != self.entries@[j].0
    }

    /// The supplied texts, by bit pattern.
    pub closed spec fn view(self) -> Map<u64, Seq<char>> {
        Map::new(
            |b: u64| exists|i: int| 0 <= i < self.entries@.len() && self.entries@[i].0 == b,
            |b: u64|
                self.entries@[choose|i: int|
                    0 <= i < self.entries@.len() && self.entries@[i].0 == b].1@,
        )
    }

    /// A table with no texts.
    pub fn new() -> (r: FloatTexts)
        ensures
            r.wf(),
            r@ == Map::<u64, Seq<char>>::empty(),
    {
        let r = FloatTexts { entries: Vec::new() };
        assert(r@ =~= Map::<u64, Seq<char>>::empty());
        r
    }

    /// Records the decimal text of a float, replacing an earlier one.
    pub fn insert(&mut self, bits: u64, text: String)
        requires
            old(self).wf(),
        ensures
            final(self).wf(),
            final(self)@ == old(self)@.insert(bits, text@),
    {
        let ghost t = text@;
        let mut i: usize = 0;
        while i < self.entries.len()
            invariant
                i <= self.entries@.len(),
                forall|j: int| 0 <= j < i ==> self.entries@[j].0 != bits,
            ensures
                i <= self.entries@.len(),
                forall|j: int| 0 <= j < i ==> self.entries@[j].0 != bits,
                i < self.entries@.len() ==> self.entries@[i as int].0 == bits,
            decreases self.entries@.len() - i,
        {
            if self.entries[i].0 == bits {
                break;
            }
            i = i + 1;
        }
        if i < self.entries.len() {
            self.entries.set(i, (bits, text));
        } else {
            self.entries.push((bits, text));
        }
        proof {
            let e = self.entries@;
            assert forall|b: u64| #[trigger] self@.contains_key(b) == old(self)@.insert(bits, t).contains_key(b) by {
                if b != bits {
                    if old(self)@.contains_key(b) {
                        let w = choose|w: int| 0 <= w < old(self).entries@.len() && old(self).entries@[w].0 == b;
                        assert(e[w].0 == b);
                    }
                } else {
                    assert(e[i as int].0 == bits);
                }
            }
            assert forall|b: u64| #[trigger] self@.contains_key(b) implies self@[b] == old(self)@.insert(bits, t)[b] by {
                let w = choose|w: int| 0 <= w < e.len() && e[w].0 == b;
                if b == bits {
                    assert(w == i);
                } else {
                    let w0 = choose|w0: int| 0 <= w0 < old(self).entries@.len() && old(self).entries@[w0].0 == b;
                    assert(e[w0] == old(self).entries@[w0]);
                    assert(w == w0);
                }
            }
            assert(self@ =~= old(self)@.insert(bits, t));
        }
    }

    /// The recorded text of a float.
    pub fn get(&self, bits: u64) -> (r: Option<&String>)
        requires
            self.wf(),
        ensures
            r.is_some() == self@.contains_key(bits),
            r.is_some() ==> r.unwrap()@ == self@[bits],
    {
        let mut i: usize = 0;
        while i < self.entries.len()
            invariant
                self.wf(),
                i <= self.entries@.len(),
                forall|j: int| 0 <= j < i ==> self.entries@[j].0 != bits,
            decreases self.entries@.len() - i,
        {
            if self.entries[i].0 == bits {
                proof {
                    assert(self.entries@[i as int].0 == bits);
                    let w = choose|w: int| 0 <= w < self.entries@.len() && self.entries@[w].0 == bits;
                    assert(w == i);
                }
                return Some(&self.entries[i].1);
            }
            i = i + 1;
        }
        proof {
            assert(!self@.contains_key(bits));
        }
        None
    }
}

/// The text of a decimal digit.
fn digit_str(d: u64) -> (r: &'static str)
    requires
        d < 10,
    ensures
        r@ == seq![digit_char(d as nat)],
{
    proof {
        reveal_strlit("0");
        reveal_strlit("1");
        reveal_strlit("2");
        reveal_strlit("3");
        reveal_strlit("4");
        reveal_strlit("5");
        reveal_strlit("6");
        reveal_strlit("7");
        reveal_strlit("8");
        reveal_strlit("9");
    }
    if d == 0 { "0" }
    else if d == 1 { "1" }
    else if d == 2 { "2" }
    else if d == 3 { "3" }
    else if d == 4 { "4" }
    else if d == 5 { "5" }
    else if d == 6 { "6" }
    else if d == 7 { "7" }
    else if d == 8 { "8" }
    else { "9" }
}

fn write_digits(n: u64, out: &mut String)
    ensures
        final(out)@ == old(out)@ + digits(n as nat),
    decreases n,
{
    if n >= 10 {
        write_digits(n / 10, out);
    }
    out.append(digit_str(n % 10));
    proof {
        assert(final(out)@ =~= old(out)@ + digits(n as nat));
    }
}

/// The decimal text of an integer.
pub fn int_to_string(i: i64) -> (r: String)
    ensures
        r@ == int_text(i as int),
{
    let mut out = String::new();
    if i < 0 {
        proof {
            reveal_strlit("-");
        }
        out.append("-");
        let magnitude: u64 = if i == i64::MIN {
            9223372036854775808u64
        } else {
            (-i) as u64
        };
        write_digits(magnitude, &mut out);
    } else {
        write_digits(i as u64, &mut out);
    }
    assert(out@ =~= int_text(i as int));
    out
}


/// Appends a float's decimal text with each decimal point replaced by a comma.
pub(crate) fn write_comma(t: &String, out: &mut String)
    ensures
        final(out)@ == old(out)@ + comma_text(t@),
{
    let s = t.as_str();
    let n = s.unicode_len();
    let mut start: usize = 0;
    let mut i: usize = 0;
    proof {
        reveal_strlit(",");
    }
    while i < n
        invariant
            s@ == t@,
            n == t@.len(),
            start <= i <= n,
            out@ == old(out)@ + comma_text(t@.subrange(0, start as int)),
            forall|j: int| start <= j < i ==> t@[j] != '.',
        decreases n - i,
    {
        proof {
            reveal_strlit(",");
        }
        if s.get_char(i) == '.' {
            let part = s.substring_char(start, i);
            out.append(part);
            out.append(",");
            proof {
                assert(comma_text(t@.subrange(0, i + 1)) =~= comma_text(t@.subrange(0, start as int))
                    + part@ + seq![',']);
            }
            start = i + 1;
        }
        i = i + 1;
    }
    let part = s.substring_char(start, n);
    out.append(part);
    proof {
        assert(t@.subrange(0, n as int) =~= t@);
        assert(comma_text(t@) =~= comma_text(t@.subrange(0, start as int)) + part@);
    }
}

proof fn lemma_items_text_step(s: Seq<Val>, k: int, texts: Map<u64, Seq<char>>)
    requires
        0 <= k < s.len(),
    ensures
        items_text(s.take(k + 1), texts) == ({
            let shown = match s[k] {
                Val::Str(x) => Some(seq!['"'] + x + seq!['"']),
                _ => plain_text(s[k], texts),
            };
            match (items_text(s.take(k), texts), shown) {
                (Some(a), Some(b)) => Some(if k == 0 { b } else { a + seq![';'] + b }),
                _ => None,
            }
        }),
{
    assert(s.take(k + 1).subrange(0, k) =~= s.take(k));
}

proof fn lemma_items_text_none(s: Seq<Val>, k: int, texts: Map<u64, Seq<char>>)
    requires
        0 <= k <= s.len(),
        items_text(s.take(k), texts) is None,
    ensures
        items_text(s, texts) is None,
    decreases s.len() - k,
{
    if k < s.len() {
        lemma_items_text_step(s, k, texts);
        lemma_items_text_none(s, k + 1, texts);
    } else {
        assert(s.take(k) =~= s);
    }
}

proof fn lemma_fields_text_step(s: Seq<(Seq<char>, Val)>, k: int, texts: Map<u64, Seq<char>>)
    requires
        0 <= k < s.len(),
    ensures
        fields_text(s.take(k + 1), texts) == (match (fields_text(s.take(k), texts), plain_text(s[k].1, texts)) {
            (Some(a), Some(b)) => Some(a + seq![' ', ' ', ' '] + s[k].0 + seq![':', ' '] + b + seq!['\n']),
            _ => None,
        }),
{
    assert(s.take(k + 1).subrange(0, k) =~= s.take(k));
}

proof fn lemma_fields_text_none(s: Seq<(Seq<char>, Val)>, k: int, texts: Map<u64, Seq<char>>)
    requires
        0 <= k <= s.len(),
        fields_text(s.take(k), texts) is None,
    ensures
        fields_text(s, texts) is None,
    decreases s.len() - k,
{
    if k < s.len() {
        lemma_fields_text_step(s, k, texts);
        lemma_fields_text_none(s, k + 1, texts);
    } else {
        assert(s.take(k) =~= s);
    }
}

/// Appends the text of a value; fails with the bit pattern of a float in it that has no
/// recorded text.
fn write_plain(value: &StackValue, texts: &FloatTexts, out: &mut String) -> (r: Result<(), u64>)
    requires
        texts.wf(),
    ensures
        r is Ok == plain_text(value.view(), texts@) is Some,
        r is Ok ==> final(out)@ == old(out)@ + plain_text(value.view(), texts@).unwrap(),
        r is Err ==> !texts@.contains_key(r->Err_0),
    decreases value,
{
    proof {
        reveal_strlit("1");
        reveal_strlit("0");
        reveal_strlit("[");
        reveal_strlit("]");
        reveal_strlit(";");
        reveal_strlit("\"");
        reveal_strlit("Objekts {\n");
        reveal_strlit("}");
        reveal_strlit("   ");
        reveal_strlit(": ");
        reveal_strlit("\n");
    }
    match value {
        StackValue::Bool { value: b } => {
            if *b {
                out.append("1");
            } else {
                out.append("0");
            }
            Ok(())
        },
        StackValue::Int { value: i } => {
            let t = int_to_string(*i);
            out.append(t.as_str());
            Ok(())
        },
        StackValue::Float { bits } => match texts.get(*bits) {
            Some(t) => {
                write_comma(t, out);
                Ok(())
            },
            None => Err(*bits),
        },
        StackValue::String { value: s } => {
            out.append(s.as_str());
            Ok(())
        },
        StackValue::Array { items } => {
            let ghost vs = views(items@);
            proof {
                lemma_views(items@);
            }
            let ghost start = out@;
            out.append("[");
            let mut i: usize = 0;
            proof {
                assert(vs.take(0) =~= Seq::<Val>::empty());
            }
            while i < items.len()
                invariant
                    *value == (StackValue::Array { items: *items }),
                    texts.wf(),
                    vs == views(items@),
                    vs.len() == items@.len(),
                    forall|j: int| 0 <= j < items@.len() ==> #[trigger] vs[j] == items@[j].view(),
                    i <= items@.len(),
                    items_text(vs.take(i as int), texts@) is Some,
                    out@ == start + seq!['['] + items_text(vs.take(i as int), texts@).unwrap(),
                decreases items@.len() - i,
            {
                proof {
                    assert(decreases_to!(*value => value->items));
                    assert(decreases_to!(*items => items[i as int]));
                    lemma_items_text_step(vs, i as int, texts@);
                    reveal_strlit(";");
                    reveal_strlit("\"");
                }
                if i > 0 {
                    out.append(";");
                }
                match &items[i] {
                    StackValue::String { value: s } => {
                        out.append("\"");
                        out.append(s.as_str());
                        out.append("\"");
                    },
                    _ => {
                        match write_plain(&items[i], texts, out) {
                            Ok(()) => {},
                            Err(b) => {
                                proof {
                                    lemma_items_text_none(vs, i as int + 1, texts@);
                                }
                                return Err(b);
                            },
                        }
                    },
                }
                i = i + 1;
                proof {
                    assert(out@ =~= start + seq!['['] + items_text(vs.take(i as int), texts@).unwrap());
                }
            }
            out.append("]");
            proof {
                assert(vs.take(i as int) =~= vs);
                assert(out@ =~= start + plain_text(value.view(), texts@).unwrap());
            }
            Ok(())
        },
        StackValue::Object { fields } => {
            let ghost fs = field_views(fields@);
            proof {
                lemma_field_views(fields@);
            }
            let ghost start = out@;
            out.append("Objekts {\n");
            let mut i: usize = 0;
            proof {
                assert(fs.take(0) =~= Seq::<(Seq<char>, Val)>::empty());
            }
            while i < fields.len()
                invariant
                    *value == (StackValue::Object { fields: *fields }),
                    texts.wf(),
                    fs == field_views(fields@),
                    fs.len() == fields@.len(),
                    forall|j: int| 0 <= j < fields@.len() ==> #[trigger] fs[j] == (fields@[j].name@, fields@[j].value.view()),
                    i <= fields@.len(),
                    fields_text(fs.take(i as int), texts@) is Some,
                    out@ == start + object_head() + fields_text(fs.take(i as int), texts@).unwrap(),
                decreases fields@.len() - i,
            {
                proof {
                    assert(decreases_to!(*value => value->fields));
                    assert(decreases_to!(*fields => fields[i as int]));
                    assert(decreases_to!(fields[i as int] => fields[i as int].value));
                    lemma_fields_text_step(fs, i as int, texts@);
                    reveal_strlit("   ");
                    reveal_strlit(": ");
                    reveal_strlit("\n");
                }
                out.append("   ");
                out.append(fields[i].name.as_str());
                out.append(": ");
                match write_plain(&fields[i].value, texts, out) {
                    Ok(()) => {},
                    Err(b) => {
                        proof {
                            lemma_fields_text_none(fs, i as int + 1, texts@);
                        }
                        return Err(b);
                    },
                }
                out.append("\n");
                i = i + 1;
                proof {
                    assert(out@ =~= start + object_head() + fields_text(fs.take(i as int), texts@).unwrap());
                }
            }
            out.append("}");
            proof {
                assert(fs.take(i as int) =~= fs);
                assert(out@ =~= start + plain_text(value.view(), texts@).unwrap());
            }
            Ok(())
        },
    }
}

/// The text that printing a value shows, with a trailing newline when asked for; fails with
/// the bit pattern of a float in the value that has no recorded text.
pub fn format_for_print(value: &StackValue, newline: bool, texts: &FloatTexts) -> (r: Result<String, u64>)
    requires
        texts.wf(),
    ensures
        r is Ok == print_text(value.view(), newline, texts@) is Some,
        r is Ok ==> r.unwrap()@ == print_text(value.view(), newline, texts@).unwrap(),
        r is Err ==> !texts@.contains_key(r->Err_0),
{
    let mut out = String::new();
    match write_plain(value, texts, &mut out) {
        Ok(()) => {},
        Err(b) => return Err(b),
    }
    if newline {
        proof {
            reveal_strlit("\n");
        }
        out.append("\n");
        assert(out@ =~= print_text(value.view(), newline, texts@).unwrap());
    } else {
        assert(out@ =~= print_text(value.view(), newline, texts@).unwrap());
    }
    Ok(out)
}

} // verus!
