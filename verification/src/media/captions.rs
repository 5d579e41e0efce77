//! The caption tracks that a probe lists: a walk over the JSON object that yt-dlp prints, which
//! pairs each of its keys with a display name.

use vstd::prelude::*;
use vstd::string::*;
use crate::util::text;

verus! {

/// Texts in pairs.
pub type Named = Seq<(Seq<char>, Seq<char>)>;

/// The characters of each pair of texts.
pub open spec fn pairs(v: Seq<(String, String)>) -> Named {
    v.map_values(|p: (String, String)| (p.0@, p.1@))
}

/// How far a walk over JSON text has come.
pub struct Walk {
    /// The top-level keys so far, each with the first name found inside its value (empty until
    /// then).
    pub entries: Named,
    /// Whether the last of them has found its name.
    pub named: bool,
    /// How many braces and brackets are open.
    pub depth: nat,
    /// The text so far of the string that the walk is inside of.
    pub string: Option<Seq<char>>,
    /// Whether the last character inside that string was a backslash that escapes the next.
    pub escaped: bool,
    /// The last closed string, with its depth, while nothing but white space followed it.
    pub pending: Option<(nat, Seq<char>)>,
    /// Whether a `"name"` key inside a value waits for its string.
    pub awaiting: bool,
}

/// The walk before the first character.
pub open spec fn start() -> Walk {
    Walk {
        entries: seq![],
        named: false,
        depth: 0,
        string: None,
        escaped: false,
        pending: None,
        awaiting: false,
    }
}

/// The entries, with `name` given to the last one unless it is named already.
pub open spec fn name_last(entries: Named, named: bool, name: Seq<char>) -> Named {
    if entries.len() > 0 && !named {
        entries.update(entries.len() - 1, (entries.last().0, name))
    } else {
        entries
    }
}

/// The walk after one more character inside a string that holds `buffer` so far.
pub open spec fn inside_string(w: Walk, buffer: Seq<char>, c: char) -> Walk {
    if w.escaped {
        Walk { string: Some(buffer.push(c)), escaped: false, ..w }
    } else if c == '\\' {
        Walk { escaped: true, ..w }
    } else if c == '"' {
        if w.awaiting {
            Walk {
                string: None,
                awaiting: false,
                entries: name_last(w.entries, w.named, buffer),
                named: true,
                ..w
            }
        } else {
            Walk { string: None, pending: Some((w.depth, buffer)), ..w }
        }
    } else {
        Walk { string: Some(buffer.push(c)), ..w }
    }
}

/// The walk after a colon: a pending string is a key. At the top level it opens an entry; deeper,
/// only the key `name` matters.
pub open spec fn after_colon(w: Walk) -> Walk {
    match w.pending {
        Some((depth, key)) => if depth == 1 {
            Walk { pending: None, entries: w.entries.push((key, seq![])), named: false, ..w }
        } else if key == "name"@ {
            Walk { pending: None, awaiting: true, ..w }
        } else {
            Walk { pending: None, ..w }
        },
        None => w,
    }
}

/// The walk after one more character.
pub open spec fn step(w: Walk, c: char) -> Walk {
    if let Some(buffer) = w.string {
        inside_string(w, buffer, c)
    } else if c == '"' {
        Walk { string: Some(seq![]), ..w }
    } else if c == ':' {
        after_colon(w)
    } else if c == ' ' || c == '\t' || c == '\n' || c == '\r' {
        w
    } else if c == '{' || c == '[' {
        Walk { depth: w.depth + 1, pending: None, awaiting: false, ..w }
    } else if c == '}' || c == ']' {
        Walk {
            depth: if w.depth == 0 {
                0
            } else {
                (w.depth - 1) as nat
            },
            pending: None,
            ..w
        }
    } else {
        Walk { pending: None, awaiting: false, ..w }
    }
}

/// The walk after the characters of `s`.
pub open spec fn walk(w: Walk, s: Seq<char>) -> Walk
    decreases s.len(),
{
    if s.len() == 0 {
        w
    } else {
        step(walk(w, s.drop_last()), s.last())
    }
}

/// The top-level keys of a JSON object, each with the first `"name"` string inside its value
/// (empty where there is none).
pub open spec fn lang_names(json: Seq<char>) -> Named {
    walk(start(), json).entries
}

/// The top-level keys of a JSON object paired with the first `"name"` string inside each key's
/// value (empty where there is none).
pub fn json_lang_names(json: &str) -> (r: Vec<(String, String)>)
    ensures
        pairs(r@) == lang_names(json@),
{
    let v = text::chars_of(json);
    let n: usize = v.len();
    let mut entries: Vec<(String, String)> = Vec::new();
    let mut named: bool = false;
    let mut depth: usize = 0;
    let mut inside: bool = false;
    let mut buffer = String::new();
    let mut escaped: bool = false;
    let mut pending: Option<(usize, String)> = None;
    let mut awaiting: bool = false;
    let mut i: usize = 0;
    assert(pairs(entries@) =~= seq![]);
    while i < n
        invariant
            i <= n,
            n == v@.len(),
            depth <= i,
            ({
                let w = walk(start(), v@.take(i as int));
                &&& pairs(entries@) == w.entries
                &&& named == w.named
                &&& depth == w.depth
                &&& w.string == if inside {
                    Some(buffer@)
                } else {
                    None
                }
                &&& escaped == w.escaped
                &&& match (pending, w.pending) {
                    (Some((a, s)), Some((b, t))) => a == b && s@ == t,
                    (None, None) => true,
                    _ => false,
                }
                &&& awaiting == w.awaiting
            }),
        decreases n - i,
    {
        let c = v[i];
        let ghost w = walk(start(), v@.take(i as int));
        assert(v@.take(i + 1).drop_last() =~= v@.take(i as int));
        assert(v@.take(i + 1).last() == c);
        assert(walk(start(), v@.take(i + 1)) == step(w, c));
        i += 1;
        if inside {
            if escaped {
                buffer.push(c);
                escaped = false;
            } else if c == '\\' {
                escaped = true;
            } else if c == '"' {
                inside = false;
                if awaiting {
                    awaiting = false;
                    let ghost before = entries@;
                    if !named {
                        if let Some((key, name)) = entries.pop() {
                            assert(pairs(before).last() == (key@, name@));
                            entries.push((key, buffer.clone()));
                        }
                    }
                    assert(pairs(entries@) =~= name_last(pairs(before), named, buffer@));
                    named = true;
                } else {
                    pending = Some((depth, buffer.clone()));
                }
            } else {
                buffer.push(c);
            }
            continue ;
        }
        if c == '"' {
            inside = true;
            buffer = String::new();
        } else if c == ':' {
            match pending {
                Some((d, key)) => {
                    if d == 1 {
                        let ghost before = entries@;
                        let ghost k = key@;
                        entries.push((key, String::new()));
                        named = false;
                        assert(pairs(entries@) =~= pairs(before).push((k, seq![])));
                    } else if text::same(key.as_str(), "name") {
                        awaiting = true;
                    }
                },
                None => {},
            }
            pending = None;
        } else if c == ' ' || c == '\t' || c == '\n' || c == '\r' {
        } else if c == '{' || c == '[' {
            depth += 1;
            pending = None;
            awaiting = false;
        } else if c == '}' || c == ']' {
            if depth > 0 {
                depth -= 1;
            }
            pending = None;
        } else {
            pending = None;
            awaiting = false;
        }
    }
    assert(v@.take(n as int) =~= v@);
    entries
}

/// Blanks between tokens mean nothing, and neither do tokens that are neither strings nor brackets
/// for the keys found so far.
pub proof fn law_blanks_between_tokens_mean_nothing(w: Walk, c: char)
    requires
        w.string is None,
    ensures
        c == ' ' || c == '\t' || c == '\n' || c == '\r' ==> step(w, c) == w,
        c != ':' ==> step(w, c).entries == w.entries,
{
}

} // verus!
