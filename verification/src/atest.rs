//! The shape of a suite written in the line-oriented notation: named scripts
//! and named tests, each test with what it expects of a run.

use crate::scanner::same_text;
use vstd::prelude::*;

verus! {

/// A place in a source text. Lines and columns count from zero, in characters.
#[derive(Debug, Clone, Copy, PartialEq, Eq, Structural)]
pub struct Location {
    pub line: usize,
    pub column: usize,
}

/// One command of a script: the text of its line, as written, and where the line starts.
#[derive(Debug, Clone, PartialEq, Eq)]
pub struct ScriptEntry {
    pub text: String,
    pub location: Location,
}

/// An ordered sequence of commands and the place where it was declared.
#[derive(Debug, Clone, PartialEq, Eq)]
pub struct Script {
    pub commands: Vec<ScriptEntry>,
    pub location: Location,
}

/// One test: an optional base script with extra arguments, the test's own
/// commands, and what is expected of the run. An absent expectation is not checked.
#[derive(Debug, Clone, PartialEq, Eq)]
pub struct Test {
    pub script: Option<(String, Vec<String>)>,
    pub commands: Script,
    pub xexit: Option<i32>,
    pub xstdout: Option<Vec<u8>>,
    pub xstderr: Option<Vec<u8>>,
}

/// A parsed suite. Scripts and tests stand in the order of their declaration, each
/// under its name.
#[derive(Debug, Clone, PartialEq, Eq)]
pub struct Arbitest {
    pub scripts: Vec<(String, Script)>,
    pub tests: Vec<(String, Test)>,
}

/// A command as a value of mathematics.
pub struct ScriptEntryView {
    pub text: Seq<char>,
    pub location: Location,
}

/// A script as a value of mathematics.
pub struct ScriptView {
    pub commands: Seq<ScriptEntryView>,
    pub location: Location,
}

/// A test as a value of mathematics.
pub struct TestView {
    pub script: Option<(Seq<char>, Seq<Seq<char>>)>,
    pub commands: ScriptView,
    pub xexit: Option<i32>,
    pub xstdout: Option<Seq<u8>>,
    pub xstderr: Option<Seq<u8>>,
}

/// A suite as a value of mathematics.
pub struct ArbitestView {
    pub scripts: Seq<(Seq<char>, ScriptView)>,
    pub tests: Seq<(Seq<char>, TestView)>,
}

/// The texts of a list of strings.
pub open spec fn view_strings(strings: Seq<String>) -> Seq<Seq<char>> {
    strings.map_values(|s: String| s@)
}

/// The bytes of an expected output, where there is one.
pub open spec fn view_bytes(bytes: Option<Vec<u8>>) -> Option<Seq<u8>> {
    match bytes {
        Some(b) => Some(b@),
        None => None,
    }
}

/// The base script of a test with its extra arguments, where it has one.
pub open spec fn view_base(script: Option<(String, Vec<String>)>) -> Option<
    (Seq<char>, Seq<Seq<char>>),
> {
    match script {
        Some((name, args)) => Some((name@, view_strings(args@))),
        None => None,
    }
}

/// The commands of a list, each by its view.
pub open spec fn view_entries(entries: Seq<ScriptEntry>) -> Seq<ScriptEntryView> {
    entries.map_values(|e: ScriptEntry| e@)
}

/// The named scripts of a list, each by its view.
pub open spec fn view_scripts(scripts: Seq<(String, Script)>) -> Seq<(Seq<char>, ScriptView)> {
    scripts.map_values(|p: (String, Script)| (p.0@, p.1@))
}

/// The named tests of a list, each by its view.
pub open spec fn view_tests(tests: Seq<(String, Test)>) -> Seq<(Seq<char>, TestView)> {
    tests.map_values(|p: (String, Test)| (p.0@, p.1@))
}

impl View for ScriptEntry {
    type V = ScriptEntryView;

    open spec fn view(&self) -> ScriptEntryView {
        ScriptEntryView { text: self.text@, location: self.location }
    }
}

impl View for Script {
    type V = ScriptView;

    open spec fn view(&self) -> ScriptView {
        ScriptView { commands: view_entries(self.commands@), location: self.location }
    }
}

impl View for Test {
    type V = TestView;

    open spec fn view(&self) -> TestView {
        TestView {
            script: view_base(self.script),
            commands: self.commands@,
            xexit: self.xexit,
            xstdout: view_bytes(self.xstdout),
            xstderr: view_bytes(self.xstderr),
        }
    }
}

impl View for Arbitest {
    type V = ArbitestView;

    open spec fn view(&self) -> ArbitestView {
        ArbitestView { scripts: view_scripts(self.scripts@), tests: view_tests(self.tests@) }
    }
}

/// Whether `i` is the first position in `items` that holds the name `name`.
pub open spec fn is_first_named<T>(items: Seq<(Seq<char>, T)>, name: Seq<char>, i: int) -> bool {
    &&& 0 <= i < items.len()
    &&& items[i].0 == name
    &&& forall|k: int| 0 <= k < i ==> (#[trigger] items[k]).0 != name
}

/// The first position in `items` that holds the name `name`, if there is one.
pub open spec fn first_named<T>(items: Seq<(Seq<char>, T)>, name: Seq<char>) -> Option<int> {
    if exists|i: int| is_first_named(items, name, i) {
        Some(choose|i: int| is_first_named(items, name, i))
    } else {
        None
    }
}

impl ArbitestView {
    /// The suite that holds nothing.
    pub open spec fn empty() -> ArbitestView {
        ArbitestView { scripts: Seq::empty(), tests: Seq::empty() }
    }

    /// The position of the script called `name`, if there is one.
    pub open spec fn script_index(self, name: Seq<char>) -> Option<int> {
        first_named(self.scripts, name)
    }

    /// The position of the test called `name`, if there is one.
    pub open spec fn test_index(self, name: Seq<char>) -> Option<int> {
        first_named(self.tests, name)
    }

    /// No two scripts and no two tests share a name.
    pub open spec fn wf(self) -> bool {
        &&& forall|i: int, j: int|
            0 <= i < j < self.scripts.len() ==> (#[trigger] self.scripts[i]).0 != (
            #[trigger] self.scripts[j]).0
        &&& forall|i: int, j: int|
            0 <= i < j < self.tests.len() ==> (#[trigger] self.tests[i]).0 != (
            #[trigger] self.tests[j]).0
    }
}

impl Arbitest {
    /// No two scripts and no two tests share a name.
    pub open spec fn wf(&self) -> bool {
        self@.wf()
    }
}

/// The first position that holds a name is the only one that is first.
pub proof fn lemma_first_named<T>(items: Seq<(Seq<char>, T)>, name: Seq<char>, i: int)
    requires
        is_first_named(items, name, i),
    ensures
        first_named(items, name) == Some(i),
{
    let j = choose|j: int| is_first_named(items, name, j);
    if j < i {
        assert(items[j].0 != name);
    } else if i < j {
        assert(items[i].0 != name);
    }
}

/// Where no item holds a name, no position is first for it.
pub proof fn lemma_not_named<T>(items: Seq<(Seq<char>, T)>, name: Seq<char>)
    requires
        forall|k: int| 0 <= k < items.len() ==> (#[trigger] items[k]).0 != name,
    ensures
        first_named(items, name) is None,
{
}

/// Where no position is first for a name, no item holds it.
pub proof fn lemma_unnamed<T>(items: Seq<(Seq<char>, T)>, name: Seq<char>)
    requires
        first_named(items, name) is None,
    ensures
        forall|k: int| 0 <= k < items.len() ==> (#[trigger] items[k]).0 != name,
    decreases items.len(),
{
    if items.len() > 0 {
        let front = items.drop_last();
        if exists|i: int| is_first_named(front, name, i) {
            let i = choose|i: int| is_first_named(front, name, i);
            assert forall|k: int| 0 <= k < i implies (#[trigger] items[k]).0 != name by {
                assert(front[k].0 != name);
            }
            assert(items[i] == front[i]);
            assert(is_first_named(items, name, i));
        }
        lemma_unnamed(front, name);
        assert forall|k: int| 0 <= k < items.len() implies (#[trigger] items[k]).0 != name by {
            if k < front.len() {
                assert(front[k].0 != name);
            } else {
                if items[k].0 == name {
                    assert forall|j: int| 0 <= j < k implies (#[trigger] items[j]).0 != name by {
                        assert(front[j].0 != name);
                    }
                    assert(is_first_named(items, name, k));
                }
            }
        }
    }
}

/// Looks a script up by its name: the first of that name, if there is one.
pub fn find_script(scripts: &Vec<(String, Script)>, name: &str) -> (found: Option<usize>)
    ensures
        match found {
            Some(i) => i < scripts@.len() && first_named(view_scripts(scripts@), name@) == Some(
                i as int,
            ),
            None => first_named(view_scripts(scripts@), name@) is None,
        },
{
    let mut i: usize = 0;
    while i < scripts.len()
        invariant
            i <= scripts@.len(),
            forall|k: int| 0 <= k < i ==> (#[trigger] view_scripts(scripts@)[k]).0 != name@,
        decreases scripts@.len() - i,
    {
        if same_text(scripts[i].0.as_str(), name) {
            proof {
                lemma_first_named(view_scripts(scripts@), name@, i as int);
            }
            return Some(i);
        }
        i = i + 1;
    }
    proof {
        lemma_not_named(view_scripts(scripts@), name@);
    }
    None
}

/// Looks a test up by its name: the first of that name, if there is one.
pub fn find_test(tests: &Vec<(String, Test)>, name: &str) -> (found: Option<usize>)
    ensures
        match found {
            Some(i) => i < tests@.len() && first_named(view_tests(tests@), name@) == Some(i as int),
            None => first_named(view_tests(tests@), name@) is None,
        },
{
    let mut i: usize = 0;
    while i < tests.len()
        invariant
            i <= tests@.len(),
            forall|k: int| 0 <= k < i ==> (#[trigger] view_tests(tests@)[k]).0 != name@,
        decreases tests@.len() - i,
    {
        if same_text(tests[i].0.as_str(), name) {
            proof {
                lemma_first_named(view_tests(tests@), name@, i as int);
            }
            return Some(i);
        }
        i = i + 1;
    }
    proof {
        lemma_not_named(view_tests(tests@), name@);
    }
    None
}

} // verus!
