//! The alias table: names that stand for the words of another command.
use crate::parser::{lex, lex_line, Lexeme, LexemeV};
use crate::text::{push_str, same_text};
use vstd::prelude::*;

verus! {

/// A name and the text it stands for.
pub struct Alias {
    pub name: String,
    pub value: String,
}

/// Whether a text can stand for a command: it lexes to one word or more and
/// nothing else.
pub open spec fn alias_words(v: Seq<char>) -> bool {
    lex(v) matches Ok(ls) && ls.len() >= 1 && forall|i: int|
        0 <= i < ls.len() ==> #[trigger] ls[i] is Word
}

/// The value the entries give `name`, searching from the last entry.
pub open spec fn value_of(es: Seq<(Seq<char>, Seq<char>)>, name: Seq<char>) -> Option<Seq<char>>
    decreases es.len(),
{
    if es.len() == 0 {
        None
    } else if es.last().0 == name {
        Some(es.last().1)
    } else {
        value_of(es.drop_last(), name)
    }
}

/// `name=value`: a line of the alias listing.
pub open spec fn alias_text(name: Seq<char>, value: Seq<char>) -> Seq<char> {
    name + "="@ + value
}

/// The entries after `name` is given `value`: the entry of `name` updated
/// in place, or a new last entry.
pub open spec fn set_result(
    before: Seq<(Seq<char>, Seq<char>)>,
    after: Seq<(Seq<char>, Seq<char>)>,
    name: Seq<char>,
    value: Seq<char>,
) -> bool {
    ||| exists|i: int|
        0 <= i < before.len() && before[i].0 == name && after == before.update(i, (name, value))
    ||| (forall|i: int| 0 <= i < before.len() ==> before[i].0 != name) && after == before.push(
        (name, value),
    )
}

/// Tells whether a text can stand for a command, as [`alias_words`] says.
pub fn is_alias_value(v: &str) -> (r: bool)
    ensures
        r == alias_words(v@),
{
    match lex_line(v) {
        Ok(ls) => {
            if ls.len() == 0 {
                return false;
            }
            let mut i: usize = 0;
            while i < ls.len()
                invariant
                    i <= ls.len(),
                    lex(v@) == Ok::<Seq<LexemeV>, crate::parser::ParseError>(
                        ls@.map_values(|l: Lexeme| l@),
                    ),
                    forall|k: int| 0 <= k < i ==> #[trigger] ls@[k]@ is Word,
                decreases ls.len() - i,
            {
                match &ls[i] {
                    Lexeme::Word(_) => {},
                    Lexeme::Op(_) => {
                        assert(!(ls@.map_values(|l: Lexeme| l@)[i as int] is Word));
                        return false;
                    },
                }
                i = i + 1;
            }
            let ghost lv = ls@.map_values(|l: Lexeme| l@);
            assert(forall|k: int| 0 <= k < lv.len() ==> #[trigger] lv[k] == ls@[k]@);
            true
        },
        Err(_) => false,
    }
}

/// The alias table, in the order names were first defined.
pub struct Aliases {
    pub entries: Vec<Alias>,
}

impl Aliases {
    /// The entries as (name, value) pairs, in order.
    pub open spec fn view(&self) -> Seq<(Seq<char>, Seq<char>)> {
        self.entries@.map_values(|a: Alias| (a.name@, a.value@))
    }

    /// Names are unique.
    pub open spec fn wf(&self) -> bool {
        forall|i: int, j: int|
            0 <= i < j < self.view().len() ==> self.view()[i].0 != self.view()[j].0
    }

    /// An empty table.
    pub fn new() -> (r: Aliases)
        ensures
            r.wf(),
            r.view() == Seq::<(Seq<char>, Seq<char>)>::empty(),
    {
        let r = Aliases { entries: Vec::new() };
        assert(r.view() =~= Seq::<(Seq<char>, Seq<char>)>::empty());
        r
    }

    /// The value of `name`, if it is an alias.
    pub fn get(&self, name: &str) -> (r: Option<String>)
        ensures
            r matches Some(v) ==> value_of(self.view(), name@) == Some(v@),
            r is None ==> value_of(self.view(), name@) is None,
    {
        let ghost es = self.view();
        let mut i = self.entries.len();
        assert(es.subrange(0, i as int) =~= es);
        while i > 0
            invariant
                i <= self.entries.len(),
                es == self.view(),
                value_of(es, name@) == value_of(es.subrange(0, i as int), name@),
            decreases i,
        {
            let ghost pre = es.subrange(0, i as int);
            assert(pre.drop_last() =~= es.subrange(0, i - 1));
            if same_text(self.entries[i - 1].name.as_str(), name) {
                return Some(self.entries[i - 1].value.clone());
            }
            i = i - 1;
        }
        assert(es.subrange(0, 0) =~= Seq::<(Seq<char>, Seq<char>)>::empty());
        None
    }

    /// Gives `name` the value `value`: in place when `name` is already an
    /// alias, else as a new last entry.
    pub fn set(&mut self, name: String, value: String)
        requires
            old(self).wf(),
        ensures
            final(self).wf(),
            set_result(old(self).view(), final(self).view(), name@, value@),
    {
        let ghost es = self.view();
        let mut i: usize = 0;
        while i < self.entries.len()
            invariant
                i <= self.entries.len(),
                self.view() == es,
                es == old(self).view(),
                self.wf(),
                forall|k: int| 0 <= k < i ==> es[k].0 != name@,
            decreases self.entries.len() - i,
        {
            if self.entries[i].name == name {
                self.entries.set(i, Alias { name, value });
                assert(self.view() =~= es.update(i as int, (name@, value@)));
                assert(forall|k: int|
                    0 <= k < es.len() ==> #[trigger] self.view()[k].0 == es[k].0);
                return ;
            }
            i = i + 1;
        }
        self.entries.push(Alias { name, value });
        assert(self.view() =~= es.push((name@, value@)));
    }

    /// The listing of the table, one `name=value` line per entry, in order.
    pub fn listing(&self) -> (r: Vec<String>)
        ensures
            r@.len() == self.view().len(),
            forall|i: int|
                0 <= i < r@.len() ==> #[trigger] r@[i]@ == alias_text(
                    self.view()[i].0,
                    self.view()[i].1,
                ),
    {
        let mut r: Vec<String> = Vec::new();
        let mut i: usize = 0;
        while i < self.entries.len()
            invariant
                i <= self.entries.len(),
                r@.len() == i,
                forall|k: int|
                    0 <= k < i ==> #[trigger] r@[k]@ == alias_text(
                        self.view()[k].0,
                        self.view()[k].1,
                    ),
            decreases self.entries.len() - i,
        {
            let mut line = self.entries[i].name.clone();
            push_str(&mut line, "=");
            push_str(&mut line, self.entries[i].value.as_str());
            r.push(line);
            i = i + 1;
        }
        r
    }
}

/// Names in the entries are unique.
pub open spec fn unique_names(es: Seq<(Seq<char>, Seq<char>)>) -> bool {
    forall|i: int, j: int| 0 <= i < j < es.len() ==> es[i].0 != es[j].0
}

proof fn lemma_value_of_update(
    es: Seq<(Seq<char>, Seq<char>)>,
    i: int,
    name: Seq<char>,
    value: Seq<char>,
    m: Seq<char>,
)
    requires
        0 <= i < es.len(),
        es[i].0 == name,
        unique_names(es),
    ensures
        value_of(es.update(i, (name, value)), m) == if m == name {
            Some(value)
        } else {
            value_of(es, m)
        },
    decreases es.len(),
{
    let es2 = es.update(i, (name, value));
    if i == es.len() - 1 {
        assert(es2.drop_last() =~= es.drop_last());
    } else {
        assert(es2.drop_last() =~= es.drop_last().update(i, (name, value)));
        assert(es.last() == es[es.len() - 1]);
        assert(es.last().0 != name);
        lemma_value_of_update(es.drop_last(), i, name, value, m);
    }
}

/// After `alias name=value`, `name` stands for `value`, and every other
/// name stands for what it stood for before.
pub proof fn lemma_set_then_value(
    before: Seq<(Seq<char>, Seq<char>)>,
    after: Seq<(Seq<char>, Seq<char>)>,
    name: Seq<char>,
    value: Seq<char>,
    m: Seq<char>,
)
    requires
        unique_names(before),
        set_result(before, after, name, value),
    ensures
        value_of(after, name) == Some(value),
        m != name ==> value_of(after, m) == value_of(before, m),
{
    if exists|i: int|
        0 <= i < before.len() && before[i].0 == name && after == before.update(i, (name, value)) {
        let i = choose|i: int|
            0 <= i < before.len() && before[i].0 == name && after == before.update(
                i,
                (name, value),
            );
        lemma_value_of_update(before, i, name, value, name);
        lemma_value_of_update(before, i, name, value, m);
    } else {
        assert(after.drop_last() =~= before);
    }
}

} // verus!
