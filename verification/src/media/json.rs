//! JSON as yt-dlp prints it, and what the caption walk finds in it.

use vstd::prelude::*;
use vstd::string::*;
use crate::media::captions;
use crate::media::captions::Walk;

verus! {

/// A JSON value.
pub enum Json {
    /// A string.
    Text(Seq<char>),
    /// A number, `true`, `false` or `null`, as it is written.
    Plain(Seq<char>),
    /// An array.
    List(Seq<Json>),
    /// An object.
    Object(Seq<(Seq<char>, Json)>),
}

/// A character as it is written inside a string.
pub open spec fn escape(c: char) -> Seq<char> {
    if c == '"' || c == '\\' {
        seq!['\\', c]
    } else {
        seq![c]
    }
}

/// A text as it is written inside a string.
pub open spec fn escaped(s: Seq<char>) -> Seq<char>
    decreases s.len(),
{
    if s.len() == 0 {
        seq![]
    } else {
        escaped(s.drop_last()) + escape(s.last())
    }
}

/// A text as a JSON string.
pub open spec fn quoted(s: Seq<char>) -> Seq<char> {
    seq!['"'] + escaped(s) + seq!['"']
}

/// A JSON value as it is printed, with a blank behind each comma and colon.
pub open spec fn printed(v: Json) -> Seq<char>
    decreases v,
{
    match v {
        Json::Text(s) => quoted(s),
        Json::Plain(s) => s,
        Json::List(items) => seq!['['] + printed_items(items) + seq![']'],
        Json::Object(fields) => seq!['{'] + printed_fields(fields) + seq!['}'],
    }
}

/// The items of an array as they are printed.
pub open spec fn printed_items(items: Seq<Json>) -> Seq<char>
    decreases items,
{
    if items.len() == 0 {
        seq![]
    } else if items.len() == 1 {
        printed(items[0])
    } else {
        printed_items(items.drop_last()) + seq![',', ' '] + printed(items[items.len() - 1])
    }
}

/// The fields of an object as they are printed.
pub open spec fn printed_fields(fields: Seq<(Seq<char>, Json)>) -> Seq<char>
    decreases fields,
{
    if fields.len() == 0 {
        seq![]
    } else if fields.len() == 1 {
        quoted(fields[0].0) + seq![':', ' '] + printed(fields[0].1)
    } else {
        printed_fields(fields.drop_last()) + seq![',', ' '] + (quoted(
            fields[fields.len() - 1].0,
        ) + seq![':', ' '] + printed(fields[fields.len() - 1].1))
    }
}

/// Whether a character can stand in a number or a word.
pub open spec fn is_plain(c: char) -> bool {
    c != '"' && c != ':' && c != ' ' && c != '\t' && c != '\n' && c != '\r' && c != '{' && c != '['
        && c != '}' && c != ']'
}

/// Whether a value can be printed and read again: the words in it are not empty, and hold no
/// character that means something else.
pub open spec fn shaped(v: Json) -> bool
    decreases v,
{
    match v {
        Json::Text(_) => true,
        Json::Plain(s) => s.len() > 0 && forall|i: int| 0 <= i < s.len() ==> is_plain(#[trigger] s[i]),
        Json::List(items) => forall|i: int| 0 <= i < items.len() ==> shaped(#[trigger] items[i]),
        Json::Object(fields) => forall|i: int|
            0 <= i < fields.len() ==> shaped((#[trigger] fields[i]).1),
    }
}

/// The first of two names, where there is one.
pub open spec fn either(a: Option<Seq<char>>, b: Option<Seq<char>>) -> Option<Seq<char>> {
    match a {
        Some(_) => a,
        None => b,
    }
}

/// The first name in a value: the string of a field `name`, at any depth.
pub open spec fn first_name(v: Json) -> Option<Seq<char>>
    decreases v,
{
    match v {
        Json::Text(_) => None,
        Json::Plain(_) => None,
        Json::List(items) => name_in_items(items),
        Json::Object(fields) => name_in_fields(fields),
    }
}

/// The first name in the items of an array.
pub open spec fn name_in_items(items: Seq<Json>) -> Option<Seq<char>>
    decreases items,
{
    if items.len() == 0 {
        None
    } else {
        either(name_in_items(items.drop_last()), first_name(items[items.len() - 1]))
    }
}

/// The first name in the fields of an object.
pub open spec fn name_in_fields(fields: Seq<(Seq<char>, Json)>) -> Option<Seq<char>>
    decreases fields,
{
    if fields.len() == 0 {
        None
    } else {
        either(
            name_in_fields(fields.drop_last()),
            match fields[fields.len() - 1].1 {
                Json::Text(s) => if fields[fields.len() - 1].0 == "name"@ {
                    Some(s)
                } else {
                    None
                },
                _ => first_name(fields[fields.len() - 1].1),
            },
        )
    }
}

proof fn lemma_walk_on(w: Walk, a: Seq<char>, b: Seq<char>)
    ensures
        captions::walk(w, a + b) == captions::walk(captions::walk(w, a), b),
    decreases b.len(),
{
    if b.len() == 0 {
        assert(a + b =~= a);
    } else {
        lemma_walk_on(w, a, b.drop_last());
        assert((a + b).drop_last() =~= a + b.drop_last());
        assert((a + b).last() == b.last());
    }
}

proof fn lemma_walk_one(w: Walk, c: char)
    ensures
        captions::walk(w, seq![c]) == captions::step(w, c),
{
    assert(seq![c].drop_last() =~= seq![]);
    assert(captions::walk(w, seq![c].drop_last()) == w);
}

proof fn lemma_walk_two(w: Walk, a: char, b: char)
    ensures
        captions::walk(w, seq![a, b]) == captions::step(captions::step(w, a), b),
{
    lemma_walk_one(w, a);
    lemma_walk_one(captions::step(w, a), b);
    lemma_walk_on(w, seq![a], seq![b]);
    assert(seq![a] + seq![b] =~= seq![a, b]);
}

proof fn lemma_inside(w: Walk, s: Seq<char>)
    requires
        w.string == Some(Seq::<char>::empty()),
        !w.escaped,
    ensures
        captions::walk(w, escaped(s)) == (Walk { string: Some(s), ..w }),
    decreases s.len(),
{
    if s.len() == 0 {
        assert(s =~= seq![]);
    } else {
        let prior = s.drop_last();
        let c = s.last();
        lemma_inside(w, prior);
        let v = Walk { string: Some(prior), ..w };
        lemma_walk_on(w, escaped(prior), escape(c));
        assert(prior.push(c) =~= s);
        if c == '"' || c == '\\' {
            lemma_walk_two(v, '\\', c);
        } else {
            lemma_walk_one(v, c);
        }
    }
}

/// A string is read whole: it is the awaited name, or else it is pending.
proof fn lemma_string(w: Walk, s: Seq<char>)
    requires
        w.string is None,
        !w.escaped,
    ensures
        captions::walk(w, quoted(s)) == (if w.awaiting {
            Walk {
                awaiting: false,
                entries: captions::name_last(w.entries, w.named, s),
                named: true,
                ..w
            }
        } else {
            Walk { pending: Some((w.depth, s)), ..w }
        }),
{
    let open = Walk { string: Some(Seq::<char>::empty()), ..w };
    lemma_walk_one(w, '"');
    assert(captions::step(w, '"') == open);
    lemma_inside(open, s);
    lemma_walk_on(w, seq!['"'], escaped(s));
    let full = Walk { string: Some(s), ..w };
    lemma_walk_one(full, '"');
    lemma_walk_on(w, seq!['"'] + escaped(s), seq!['"']);
}

proof fn lemma_word(w: Walk, s: Seq<char>)
    requires
        w.string is None,
        s.len() > 0,
        forall|i: int| 0 <= i < s.len() ==> is_plain(#[trigger] s[i]),
    ensures
        captions::walk(w, s) == (Walk { pending: None, awaiting: false, ..w }),
    decreases s.len(),
{
    let prior = s.drop_last();
    assert(is_plain(s[s.len() - 1]));
    if prior.len() > 0 {
        assert forall|i: int| 0 <= i < prior.len() implies is_plain(#[trigger] prior[i]) by {
            assert(prior[i] == s[i]);
        }
        lemma_word(w, prior);
    } else {
        assert(captions::walk(w, prior) == w);
    }
}

/// The walk stands between tokens, inside the top-level object.
spec fn between(w: Walk) -> bool {
    w.string is None && !w.escaped && !w.awaiting && w.depth >= 1
}

/// The walk has read on from `w`: it stands between tokens at the same depth, with `name`, where
/// there is one, offered to the last entry.
spec fn read_on(w: Walk, t: Walk, name: Option<Seq<char>>) -> bool {
    &&& between(t)
    &&& t.depth == w.depth
    &&& match name {
        Some(name) => t.entries == captions::name_last(w.entries, w.named, name) && t.named,
        None => t.entries == w.entries && t.named == w.named,
    }
}

proof fn lemma_value(w: Walk, v: Json)
    requires
        between(w),
        shaped(v),
    ensures
        read_on(w, captions::walk(w, printed(v)), first_name(v)),
    decreases v,
{
    match v {
        Json::Text(s) => {
            lemma_string(w, s);
        },
        Json::Plain(s) => {
            lemma_word(w, s);
        },
        Json::List(items) => {
            let open = captions::step(w, '[');
            lemma_walk_one(w, '[');
            lemma_items(open, items);
            lemma_walk_on(w, seq!['['], printed_items(items));
            let inner = captions::walk(open, printed_items(items));
            lemma_walk_one(inner, ']');
            lemma_walk_on(w, seq!['['] + printed_items(items), seq![']']);
        },
        Json::Object(fields) => {
            let open = captions::step(w, '{');
            lemma_walk_one(w, '{');
            lemma_fields(open, fields);
            lemma_walk_on(w, seq!['{'], printed_fields(fields));
            let inner = captions::walk(open, printed_fields(fields));
            lemma_walk_one(inner, '}');
            lemma_walk_on(w, seq!['{'] + printed_fields(fields), seq!['}']);
        },
    }
}

proof fn lemma_items(w: Walk, items: Seq<Json>)
    requires
        between(w),
        forall|i: int| 0 <= i < items.len() ==> shaped(#[trigger] items[i]),
    ensures
        read_on(w, captions::walk(w, printed_items(items)), name_in_items(items)),
    decreases items,
{
    if items.len() == 0 {
    } else {
        let prior = items.drop_last();
        let last = items[items.len() - 1];
        assert forall|i: int| 0 <= i < prior.len() implies shaped(#[trigger] prior[i]) by {
            assert(prior[i] == items[i]);
        }
        lemma_items(w, prior);
        if items.len() == 1 {
            assert(name_in_items(prior) is None);
            lemma_value(w, last);
        } else {
            let t = captions::walk(w, printed_items(prior));
            let u = captions::step(captions::step(t, ','), ' ');
            lemma_walk_two(t, ',', ' ');
            lemma_walk_on(w, printed_items(prior), seq![',', ' ']);
            lemma_value(u, last);
            lemma_walk_on(w, printed_items(prior) + seq![',', ' '], printed(last));
        }
    }
}

/// What a field offers as a name.
spec fn name_of_field(field: (Seq<char>, Json)) -> Option<Seq<char>> {
    match field.1 {
        Json::Text(s) => if field.0 == "name"@ {
            Some(s)
        } else {
            None
        },
        _ => first_name(field.1),
    }
}

proof fn lemma_field(w: Walk, field: (Seq<char>, Json))
    requires
        between(w),
        w.depth >= 2,
        shaped(field.1),
    ensures
        read_on(
            w,
            captions::walk(w, quoted(field.0) + seq![':', ' '] + printed(field.1)),
            name_of_field(field),
        ),
    decreases field,
{
    let t = captions::walk(w, quoted(field.0));
    let u = captions::step(captions::step(t, ':'), ' ');
    lemma_string(w, field.0);
    lemma_walk_two(t, ':', ' ');
    lemma_walk_on(w, quoted(field.0), seq![':', ' ']);
    lemma_walk_on(w, quoted(field.0) + seq![':', ' '], printed(field.1));
    if field.0 == "name"@ {
        let calm = Walk { awaiting: false, ..u };
        match field.1 {
            Json::Text(s) => lemma_string(u, s),
            Json::Plain(s) => lemma_word(u, s),
            Json::List(items) => {
                lemma_value(calm, field.1);
                lemma_opened(u, calm, '[', printed_items(items) + seq![']']);
                assert(printed(field.1) =~= seq!['['] + (printed_items(items) + seq![']']));
            },
            Json::Object(fields) => {
                lemma_value(calm, field.1);
                lemma_opened(u, calm, '{', printed_fields(fields) + seq!['}']);
                assert(printed(field.1) =~= seq!['{'] + (printed_fields(fields) + seq!['}']));
            },
        }
    } else {
        lemma_value(u, field.1);
    }
}

/// An opening brace or bracket ends the wait for a name.
proof fn lemma_opened(a: Walk, b: Walk, c: char, rest: Seq<char>)
    requires
        c == '[' || c == '{',
        a.string is None,
        b == (Walk { awaiting: false, ..a }),
    ensures
        captions::walk(a, seq![c] + rest) == captions::walk(b, seq![c] + rest),
{
    lemma_walk_one(a, c);
    lemma_walk_one(b, c);
    lemma_walk_on(a, seq![c], rest);
    lemma_walk_on(b, seq![c], rest);
}

proof fn lemma_fields(w: Walk, fields: Seq<(Seq<char>, Json)>)
    requires
        between(w),
        w.depth >= 2,
        forall|i: int| 0 <= i < fields.len() ==> shaped((#[trigger] fields[i]).1),
    ensures
        read_on(w, captions::walk(w, printed_fields(fields)), name_in_fields(fields)),
    decreases fields,
{
    if fields.len() == 0 {
    } else {
        let prior = fields.drop_last();
        let last = fields[fields.len() - 1];
        assert forall|i: int| 0 <= i < prior.len() implies shaped((#[trigger] prior[i]).1) by {
            assert(prior[i] == fields[i]);
        }
        lemma_fields(w, prior);
        if fields.len() == 1 {
            assert(name_in_fields(prior) is None);
            lemma_field(w, last);
        } else {
            let t = captions::walk(w, printed_fields(prior));
            let u = captions::step(captions::step(t, ','), ' ');
            let shown = quoted(last.0) + seq![':', ' '] + printed(last.1);
            lemma_walk_two(t, ',', ' ');
            lemma_walk_on(w, printed_fields(prior), seq![',', ' ']);
            lemma_field(u, last);
            lemma_walk_on(w, printed_fields(prior) + seq![',', ' '], shown);
        }
    }
}

/// The name of an entry: empty where none was found.
pub open spec fn name_or_none(name: Option<Seq<char>>) -> Seq<char> {
    match name {
        Some(name) => name,
        None => seq![],
    }
}

proof fn lemma_top_field(w: Walk, field: (Seq<char>, Json))
    requires
        between(w),
        w.depth == 1,
        shaped(field.1),
    ensures
        ({
            let t = captions::walk(w, quoted(field.0) + seq![':', ' '] + printed(field.1));
            &&& between(t)
            &&& t.depth == 1
            &&& t.entries == w.entries.push((field.0, name_or_none(first_name(field.1))))
        }),
{
    let t = captions::walk(w, quoted(field.0));
    let u = captions::step(captions::step(t, ':'), ' ');
    lemma_string(w, field.0);
    lemma_walk_two(t, ':', ' ');
    lemma_walk_on(w, quoted(field.0), seq![':', ' ']);
    lemma_walk_on(w, quoted(field.0) + seq![':', ' '], printed(field.1));
    lemma_value(u, field.1);
    if let Some(name) = first_name(field.1) {
        assert(captions::name_last(u.entries, false, name) =~= w.entries.push((field.0, name)));
    }
}

/// The keys of an object's fields, each with the first name in its value (empty where there is
/// none).
pub open spec fn named_fields(fields: Seq<(Seq<char>, Json)>) -> captions::Named {
    fields.map_values(|f: (Seq<char>, Json)| (f.0, name_or_none(first_name(f.1))))
}

proof fn lemma_top_fields(w: Walk, fields: Seq<(Seq<char>, Json)>)
    requires
        between(w),
        w.depth == 1,
        forall|i: int| 0 <= i < fields.len() ==> shaped((#[trigger] fields[i]).1),
    ensures
        ({
            let t = captions::walk(w, printed_fields(fields));
            &&& between(t)
            &&& t.depth == 1
            &&& t.entries == w.entries + named_fields(fields)
        }),
    decreases fields.len(),
{
    if fields.len() == 0 {
        assert(w.entries + named_fields(fields) =~= w.entries);
    } else {
        let prior = fields.drop_last();
        let last = fields[fields.len() - 1];
        assert forall|i: int| 0 <= i < prior.len() implies shaped((#[trigger] prior[i]).1) by {
            assert(prior[i] == fields[i]);
        }
        lemma_top_fields(w, prior);
        assert(w.entries + named_fields(fields) =~= (w.entries + named_fields(prior)).push(
            (last.0, name_or_none(first_name(last.1))),
        ));
        if fields.len() == 1 {
            assert(w.entries + named_fields(prior) =~= w.entries);
            lemma_top_field(w, last);
        } else {
            let t = captions::walk(w, printed_fields(prior));
            let u = captions::step(captions::step(t, ','), ' ');
            let shown = quoted(last.0) + seq![':', ' '] + printed(last.1);
            lemma_walk_two(t, ',', ' ');
            lemma_walk_on(w, printed_fields(prior), seq![',', ' ']);
            lemma_top_field(u, last);
            lemma_walk_on(w, printed_fields(prior) + seq![',', ' '], shown);
        }
    }
}

/// The walk reads what yt-dlp prints: of an object it finds every key, in order and with its
/// escapes undone, and with it the first name in the key's value, empty or not. (The strings hold no escapes but those of the quote and the backslash.)
pub proof fn law_captions_are_read_back(fields: Seq<(Seq<char>, Json)>)
    requires
        forall|i: int| 0 <= i < fields.len() ==> shaped((#[trigger] fields[i]).1),
    ensures
        captions::lang_names(printed(Json::Object(fields))) == named_fields(fields),
{
    let w = captions::start();
    let open = captions::step(w, '{');
    lemma_walk_one(w, '{');
    lemma_top_fields(open, fields);
    lemma_walk_on(w, seq!['{'], printed_fields(fields));
    let inner = captions::walk(open, printed_fields(fields));
    lemma_walk_one(inner, '}');
    lemma_walk_on(w, seq!['{'] + printed_fields(fields), seq!['}']);
    assert(open.entries + named_fields(fields) =~= named_fields(fields));
}

} // verus!
