//! Namespaced names of the form `scope:id`.
use vstd::prelude::*;
use vstd::std_specs::convert::FromSpecImpl;
use vstd::std_specs::iter::IteratorSpec;

verus! {

/// The character that separates a scope from an id.
pub const DIVIDER: char = ':';

/// The character that replaces every divider after the first one.
pub const JOINER: char = '_';

/// The scope given to a text that names none.
pub const DEFAULT_NAMESPACE: &'static str = "game";

/// The id given to a text whose id part is empty.
pub const DEFAULT_ID: &'static str = "unknown";

/// The mathematical value of an [`Identifier`]: its two texts.
pub struct IdentifierView {
    pub scope: Seq<char>,
    pub id: Seq<char>,
}

/// `text` without its first character, where that character is a divider.
pub open spec fn strip_leading_divider(text: Seq<char>) -> Seq<char> {
    if text.len() > 0 && text[0] == DIVIDER {
        text.skip(1)
    } else {
        text
    }
}

/// `at` is the position of the first divider in `text`.
pub open spec fn is_first_divider(text: Seq<char>, at: int) -> bool {
    &&& 0 <= at < text.len()
    &&& text[at] == DIVIDER
    &&& forall|j: int| 0 <= j < at ==> text[j] != DIVIDER
}

/// The position of the first divider in a text that holds one.
pub open spec fn first_divider(text: Seq<char>) -> int {
    choose|at: int| is_first_divider(text, at)
}

/// `text` with every divider replaced by the joiner.
pub open spec fn join_dividers(text: Seq<char>) -> Seq<char> {
    text.map_values(
        |c: char|
            if c == DIVIDER {
                JOINER
            } else {
                c
            },
    )
}

/// What a text denotes, given the scope to use where it names none.
///
/// One leading divider is dropped. If a divider remains, the scope is what
/// precedes the first one and the id is what follows it, with further
/// dividers replaced by the joiner and an empty id replaced by the default
/// id. Otherwise the scope is `namespace` and the id is the whole text.
pub open spec fn parse_spec(text: Seq<char>, namespace: Seq<char>) -> IdentifierView {
    let cleaned = strip_leading_divider(text);
    if cleaned.contains(DIVIDER) {
        let at = first_divider(cleaned);
        let joined = join_dividers(cleaned.skip(at + 1));
        IdentifierView {
            scope: cleaned.take(at),
            id: if joined.len() == 0 {
                DEFAULT_ID@
            } else {
                joined
            },
        }
    } else {
        IdentifierView { scope: namespace, id: cleaned }
    }
}

/// A text has at most one first divider.
pub proof fn lemma_first_divider_unique(text: Seq<char>, at: int)
    requires
        is_first_divider(text, at),
    ensures
        text.contains(DIVIDER),
        first_divider(text) == at,
{
}

/// A text without a divider, but for one that may lead it, is an id in the
/// given namespace.
pub proof fn lemma_parse_plain(text: Seq<char>, namespace: Seq<char>)
    requires
        !strip_leading_divider(text).contains(DIVIDER),
    ensures
        parse_spec(text, namespace) == (IdentifierView {
            scope: namespace,
            id: strip_leading_divider(text),
        }),
{
}

/// One divider in front of a text that does not start with one changes
/// nothing.
pub proof fn lemma_parse_leading_divider(text: Seq<char>, namespace: Seq<char>)
    requires
        text.len() == 0 || text[0] != DIVIDER,
    ensures
        parse_spec(seq![DIVIDER] + text, namespace) == parse_spec(text, namespace),
{
    assert(strip_leading_divider(seq![DIVIDER] + text) =~= text);
}

/// A scope, a divider and a rest are read as that scope and, for the id, the
/// rest with its dividers joined, or the default id where the rest is empty.
pub proof fn lemma_parse_scoped(scope: Seq<char>, rest: Seq<char>, namespace: Seq<char>)
    requires
        scope.len() > 0,
        !scope.contains(DIVIDER),
    ensures
        parse_spec(scope.push(DIVIDER) + rest, namespace) == (IdentifierView {
            scope,
            id: if rest.len() == 0 {
                DEFAULT_ID@
            } else {
                join_dividers(rest)
            },
        }),
        !join_dividers(rest).contains(DIVIDER),
{
    let text = scope.push(DIVIDER) + rest;
    let at = scope.len() as int;
    assert(is_first_divider(text, at));
    lemma_first_divider_unique(text, at);
    assert(text.take(at) =~= scope);
    assert(text.skip(at + 1) =~= rest);
}

/// The text of an identifier reads back as the identifier, where the scope
/// and the id are not empty and hold no divider.
pub proof fn lemma_text_reads_back(identifier: IdentifierView, namespace: Seq<char>)
    requires
        identifier.scope.len() > 0,
        identifier.id.len() > 0,
        !identifier.scope.contains(DIVIDER),
        !identifier.id.contains(DIVIDER),
    ensures
        parse_spec(identifier.scope.push(DIVIDER) + identifier.id, namespace) == identifier,
{
    lemma_parse_scoped(identifier.scope, identifier.id, namespace);
    assert(join_dividers(identifier.id) =~= identifier.id);
}

/// A namespaced name: a scope and an id.
#[derive(Debug, Eq, Hash)]
pub struct Identifier {
    scope: String,
    id: String,
}

impl View for Identifier {
    type V = IdentifierView;

    closed spec fn view(&self) -> IdentifierView {
        IdentifierView { scope: self.scope@, id: self.id@ }
    }
}

/// `String::push` appends one character.
pub assume_specification[ String::push ](text: &mut String, c: char)
    ensures
        final(text)@ == old(text)@.push(c),
;

impl Identifier {
    /// Reads `value` as an identifier, with `namespace` as the scope of a
    /// text that names none.
    pub fn parse(value: &str, namespace: &str) -> (r: Identifier)
        ensures
            r@ == parse_spec(value@, namespace@),
    {
        broadcast use vstd::string::group_string_axioms;

        let ghost text = value@;
        let ghost cleaned = strip_leading_divider(text);
        let mut head = String::new();
        let mut tail = String::new();
        let mut found = false;
        let mut it = value.chars();
        let ghost mut done: int = 0;
        let ghost mut at: int = 0;
        match it.next() {
            Some(c) => {
                if c != DIVIDER {
                    head.push(c);
                }
                proof {
                    done = 1;
                }
            },
            None => {},
        }
        let ghost lead = text.len() - cleaned.len();
        loop
            invariant
                text == value@,
                cleaned == strip_leading_divider(text),
                lead == text.len() - cleaned.len(),
                0 <= lead <= done <= text.len(),
                it.remaining() == text.skip(done),
                !found ==> head@ == cleaned.take(done - lead) && tail@.len() == 0 && forall|
                    j: int,
                | 0 <= j < done - lead ==> cleaned[j] != DIVIDER,
                found ==> is_first_divider(cleaned, at) && at < done - lead && head@
                    == cleaned.take(at) && tail@ == join_dividers(
                    cleaned.subrange(at + 1, done - lead),
                ),
            ensures
                done == text.len(),
            decreases text.len() - done,
        {
            match it.next() {
                Some(c) => {
                    if found {
                        let joined = if c == DIVIDER {
                            JOINER
                        } else {
                            c
                        };
                        tail.push(joined);
                    } else if c == DIVIDER {
                        found = true;
                        proof {
                            at = done - lead;
                        }
                    } else {
                        head.push(c);
                    }
                    proof {
                        done = done + 1;
                    }
                },
                None => {
                    break ;
                },
            }
        }
        if found {
            proof {
                lemma_first_divider_unique(cleaned, at);
            }
            let id = if tail.as_str().is_empty() {
                DEFAULT_ID.to_owned()
            } else {
                tail
            };
            Identifier { scope: head, id }
        } else {
            proof {
                assert(head@ =~= cleaned);
            }
            Identifier { scope: namespace.to_owned(), id: head }
        }
    }

    /// The scope.
    pub fn scope(&self) -> (r: &String)
        ensures
            r@ == self@.scope,
    {
        &self.scope
    }

    /// The id.
    pub fn id(&self) -> (r: &String)
        ensures
            r@ == self@.id,
    {
        &self.id
    }

    /// The scope, a divider and the id, as one text.
    pub fn to_string(&self) -> (r: String)
        ensures
            r@ == self@.scope.push(DIVIDER) + self@.id,
    {
        let mut text = self.scope.clone();
        text.push(DIVIDER);
        text.append(self.id.as_str());
        text
    }
}

/// A copy holds the same scope and id.
impl Clone for Identifier {
    fn clone(&self) -> (r: Self)
        ensures
            r@ == self@,
    {
        Identifier { scope: self.scope.clone(), id: self.id.clone() }
    }
}

/// Identifiers are equal when their scopes and their ids are.
impl PartialEq for Identifier {
    fn eq(&self, other: &Self) -> (r: bool) {
        self.scope == other.scope && self.id == other.id
    }
}

impl vstd::std_specs::cmp::PartialEqSpecImpl for Identifier {
    open spec fn obeys_eq_spec() -> bool {
        true
    }

    open spec fn eq_spec(&self, other: &Self) -> bool {
        self@ == other@
    }
}

/// Reads an owned text in the default namespace.
impl From<String> for Identifier {
    fn from(value: String) -> (r: Self)
        ensures
            r@ == parse_spec(value@, DEFAULT_NAMESPACE@),
    {
        Identifier::parse(value.as_str(), DEFAULT_NAMESPACE)
    }
}

/// What `from` gives is stated on `from` itself, over the view: a
/// specification can tell what an identifier holds, not write one down.
impl FromSpecImpl<String> for Identifier {
    open spec fn obeys_from_spec() -> bool {
        false
    }

    open spec fn from_spec(value: String) -> Self {
        arbitrary()
    }
}

/// Reads a text in the default namespace.
impl From<&str> for Identifier {
    fn from(value: &str) -> (r: Self)
        ensures
            r@ == parse_spec(value@, DEFAULT_NAMESPACE@),
    {
        Identifier::parse(value, DEFAULT_NAMESPACE)
    }
}

/// As for an owned text, the contract stands on `from` itself.
impl FromSpecImpl<&str> for Identifier {
    open spec fn obeys_from_spec() -> bool {
        false
    }

    open spec fn from_spec(value: &str) -> Self {
        arbitrary()
    }
}

/// The text of an identifier: its scope, a divider and its id.
impl From<Identifier> for String {
    fn from(value: Identifier) -> (text: String)
        ensures
            text@ == value@.scope.push(DIVIDER) + value@.id,
    {
        value.to_string()
    }
}

/// The contract stands on `from` itself, over the view of the text.
impl FromSpecImpl<Identifier> for String {
    open spec fn obeys_from_spec() -> bool {
        false
    }

    open spec fn from_spec(value: Identifier) -> Self {
        arbitrary()
    }
}

} // verus!
