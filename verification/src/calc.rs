//! A word-level calculator: it takes the numbers and the variable
//! definitions out of a line and reports the coroutines that it holds,
//! without executing them.

use crate::calculator::environment::Environment;
use crate::calculator::value::{Value, ValueView};
use crate::parser::{
    coroutines_of, definitions_of, is_parse_function, numbers_among, parsed, read, words_of,
    Parser,
};
use vstd::prelude::*;

verus! {

/// The variables after the definitions `definitions` were applied to the
/// variables `before`: a name whose defined value is a number is bound to
/// that number; every other name is as it was.
pub open spec fn with_definitions<N, P: Fn(&String) -> Option<N>>(
    parse: P,
    definitions: Map<Seq<char>, Seq<char>>,
    before: Map<Seq<char>, ValueView<N>>,
) -> Map<Seq<char>, ValueView<N>> {
    Map::new(
        |name: Seq<char>|
            before.contains_key(name) || (definitions.contains_key(name) && parsed(
                parse,
                definitions[name],
            ) is Some),
        |name: Seq<char>|
            if definitions.contains_key(name) && parsed(parse, definitions[name]) is Some {
                ValueView::Number(parsed(parse, definitions[name]).unwrap())
            } else {
                before[name]
            },
    )
}

/// The first `n` of the names, as a set.
spec fn named(names: Seq<String>, n: int) -> Set<Seq<char>> {
    Set::new(|name: Seq<char>| exists|k: int| 0 <= k < n && (#[trigger] names[k])@ == name)
}

/// The variables and the numbers that were taken out of the lines so far.
pub struct Calculator<N> {
    pub variables: Environment<Value<N>>,
    pub stack: Vec<N>,
}

impl<N: Copy> Calculator<N> {
    /// A calculator without variables and numbers.
    pub fn new() -> (calculator: Self)
        ensures
            calculator.variables@ == Map::<Seq<char>, ValueView<N>>::empty(),
            calculator.stack@ == Seq::<N>::empty(),
    {
        Calculator { variables: Environment::new(), stack: Vec::new() }
    }

    /// Takes a line in: the words that `parse` makes numbers of are pushed
    /// in order, the variables whose defined value `parse` makes a number of
    /// are bound, and the coroutines of the line are handed back.
    pub fn execute<P: Fn(&String) -> Option<N>>(&mut self, input: &str, parse: &P) -> (coroutines:
        Vec<Vec<String>>)
        requires
            is_parse_function(*parse),
        ensures
            final(self).stack@ == old(self).stack@ + numbers_among(*parse, words_of(input@)),
            final(self).variables@ == with_definitions(
                *parse,
                definitions_of(words_of(input@)),
                old(self).variables@,
            ),
            coroutines.deep_view() == coroutines_of(words_of(input@)),
    {
        let parser = Parser::new(input);
        let ghost words = words_of(input@);
        let ghost definitions = definitions_of(words);
        let ghost before = self.variables@;

        let mut numbers = parser.parse_numbers(parse);
        self.stack.append(&mut numbers);

        let defined = parser.parse_variables();
        let names = defined.names();
        let mut i: usize = 0;
        while i < names.len()
            invariant
                i <= names.len(),
                is_parse_function(*parse),
                defined@ == definitions,
                forall|name: Seq<char>|
                    definitions.contains_key(name) <==> exists|k: int|
                        0 <= k < names.len() && (#[trigger] names[k])@ == name,
                forall|j: int, k: int|
                    0 <= j < k < names.len() ==> (#[trigger] names[j])@ != (#[trigger] names[k])@,
                self.stack@ == old(self).stack@ + numbers_among(*parse, words),
                self.variables@ == with_definitions(
                    *parse,
                    definitions.restrict(named(names@, i as int)),
                    before,
                ),
            decreases names.len() - i,
        {
            let ghost done = named(names@, i as int);
            let ghost next = named(names@, i + 1);
            let name = &names[i];
            assert(next.contains(name@));
            assert(!done.contains(name@));
            assert(forall|other: Seq<char>|
                next.contains(other) <==> done.contains(other) || other == name@);
            match defined.get(name) {
                Some(text) => {
                    match read(parse, text) {
                        Some(n) => {
                            self.variables.set(name.clone(), Value::Number(n));
                        },
                        None => {},
                    }
                },
                None => {},
            }
            assert(self.variables@ =~= with_definitions(*parse, definitions.restrict(next), before));
            i += 1;
        }
        assert(definitions.restrict(named(names@, i as int)) =~= definitions);
        parser.parse_coroutines()
    }
}

} // verus!
