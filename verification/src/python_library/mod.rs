//! The library of script snippets that script nodes can run.

use vstd::prelude::*;
use vstd::string::StringExecFns;

use crate::types::names::text_eq;

verus! {

/// A script of the library, with what its header says of it.
#[derive(Debug, PartialEq, Eq)]
pub struct PythonScript {
    pub name: String,
    pub description: String,
    /// The path of the script below the library's root, with `/` between
    /// its parts.
    pub relative_path: String,
    /// The name of the directory that holds the script.
    pub category: String,
}

/// Mathematical model of a [`PythonScript`].
pub struct ScriptView {
    pub name: Seq<char>,
    pub description: Seq<char>,
    pub relative_path: Seq<char>,
    pub category: Seq<char>,
}

impl View for PythonScript {
    type V = ScriptView;

    open spec fn view(&self) -> ScriptView {
        ScriptView {
            name: self.name@,
            description: self.description@,
            relative_path: self.relative_path@,
            category: self.category@,
        }
    }
}

impl Clone for PythonScript {
    fn clone(&self) -> (r: Self)
        ensures
            r@ == self@,
    {
        PythonScript {
            name: self.name.clone(),
            description: self.description.clone(),
            relative_path: self.relative_path.clone(),
            category: self.category.clone(),
        }
    }
}

/// The lines that `str::lines` of the standard library finds in `text`.
pub uninterp spec fn text_lines(text: Seq<char>) -> Seq<Seq<char>>;

/// The text that `str::trim` of the standard library leaves of `text`.
pub uninterp spec fn trimmed_text(text: Seq<char>) -> Seq<char>;

/// `str::lines` of the standard library: the lines of the text, without
/// their line endings.
#[verifier::external_body]
fn lines_of(text: &str) -> (r: Vec<String>)
    ensures
        r@.len() == text_lines(text@).len(),
        forall|i: int| 0 <= i < r@.len() ==> (#[trigger] r@[i])@ == text_lines(text@)[i],
{
    text.lines().map(|line| line.to_string()).collect()
}

/// `str::trim` of the standard library: the text without the white space
/// at its beginning and at its end.
#[verifier::external_body]
fn trimmed(text: &str) -> (r: String)
    ensures
        r@ == trimmed_text(text@),
{
    text.trim().to_string()
}

/// What is left of `text` behind `prefix`, where it begins with it.
pub open spec fn behind_prefix(text: Seq<char>, prefix: Seq<char>) -> Option<Seq<char>> {
    if prefix.len() <= text.len() && text.subrange(0, prefix.len() as int) == prefix {
        Some(text.subrange(prefix.len() as int, text.len() as int))
    } else {
        None
    }
}

/// `str::strip_prefix` of the standard library: the text behind the
/// prefix, for a text that begins with it.
#[verifier::external_body]
fn strip_prefix(text: &str, prefix: &str) -> (r: Option<String>)
    ensures
        match r {
            Some(rest) => behind_prefix(text@, prefix@) == Some(rest@),
            None => behind_prefix(text@, prefix@) is None,
        },
{
    text.strip_prefix(prefix).map(|rest| rest.to_string())
}

/// The words that introduce the entry `key` in the header of a script.
pub open spec fn meta_tag(key: Seq<char>) -> Seq<char> {
    "# @"@ + key + " "@
}

/// The entry `key` on one line of a script, if the line holds it: what
/// follows the tag on the trimmed line.
pub open spec fn meta_on(line: Seq<char>, key: Seq<char>) -> Option<Seq<char>> {
    behind_prefix(trimmed_text(line), meta_tag(key))
}

/// The number of lines at the top of a script that are read for entries.
pub const HEADER_LINES: usize = 30;

/// The number of header lines in a script of `lines` lines.
pub open spec fn header_len(lines: int) -> int {
    if lines < HEADER_LINES {
        lines
    } else {
        HEADER_LINES as int
    }
}

/// Whether line `i` is the first header line that holds the entry `key`.
pub open spec fn is_first_meta(lines: Seq<Seq<char>>, key: Seq<char>, i: int) -> bool {
    &&& 0 <= i < header_len(lines.len() as int)
    &&& meta_on(lines[i], key) is Some
    &&& forall|j: int| 0 <= j < i ==> meta_on(#[trigger] lines[j], key) is None
}

/// Whether no header line holds the entry `key`.
pub open spec fn no_meta(lines: Seq<Seq<char>>, key: Seq<char>) -> bool {
    forall|j: int| 0 <= j < header_len(lines.len() as int) ==> meta_on(#[trigger] lines[j], key)
        is None
}

/// The categories of the first `upto` scripts, each once, in the order in
/// which they first occur.
pub open spec fn categories(scripts: Seq<ScriptView>, upto: int) -> Seq<Seq<char>>
    decreases upto,
{
    if upto <= 0 {
        Seq::empty()
    } else if categories(scripts, upto - 1).contains(scripts[upto - 1].category) {
        categories(scripts, upto - 1)
    } else {
        categories(scripts, upto - 1).push(scripts[upto - 1].category)
    }
}

/// Those of the first `upto` scripts that are of the category `category`,
/// in their order.
pub open spec fn members(scripts: Seq<ScriptView>, category: Seq<char>, upto: int) -> Seq<
    ScriptView,
>
    decreases upto,
{
    if upto <= 0 {
        Seq::empty()
    } else if scripts[upto - 1].category == category {
        members(scripts, category, upto - 1).push(scripts[upto - 1])
    } else {
        members(scripts, category, upto - 1)
    }
}

/// The scripts of a group as contracts speak of them.
pub open spec fn group_view(group: Seq<&PythonScript>) -> Seq<ScriptView> {
    Seq::new(group.len(), |i: int| group[i]@)
}

/// The place of the group of the category `category`.
fn find_group(groups: &Vec<(String, Vec<&PythonScript>)>, category: &str) -> (r: Option<usize>)
    ensures
        match r {
            Some(at) => at < groups@.len() && groups@[at as int].0@ == category@,
            None => forall|h: int|
                0 <= h < groups@.len() ==> (#[trigger] groups@[h]).0@ != category@,
        },
{
    let mut g: usize = 0;
    while g < groups.len()
        invariant
            g <= groups@.len(),
            forall|h: int| 0 <= h < g ==> (#[trigger] groups@[h]).0@ != category@,
        decreases groups@.len() - g,
    {
        if text_eq(groups[g].0.as_str(), category) {
            return Some(g);
        }
        g = g + 1;
    }
    None
}

/// The scripts of a library, by their path below its root.
pub struct PythonLibrary {
    root_path: String,
    scripts: Vec<PythonScript>,
}

impl PythonLibrary {
    /// The directory that holds the library.
    pub closed spec fn root(&self) -> Seq<char> {
        self.root_path@
    }

    /// The scripts of the library, in the order in which their paths were
    /// first added.
    pub closed spec fn scripts(&self) -> Seq<ScriptView> {
        Seq::new(self.scripts@.len(), |i: int| self.scripts@[i]@)
    }

    /// A library below `root_path` that holds no script yet.
    pub fn new(root_path: &str) -> (r: Self)
        ensures
            r.root() == root_path@,
            r.scripts() == Seq::<ScriptView>::empty(),
    {
        let r = Self { root_path: root_path.to_owned(), scripts: Vec::new() };
        assert(r.scripts() =~= Seq::<ScriptView>::empty());
        r
    }

    /// The directory that holds the library.
    pub fn root_path(&self) -> (r: &str)
        ensures
            r@ == self.root(),
    {
        self.root_path.as_str()
    }

    /// The number of scripts.
    pub fn len(&self) -> (r: usize)
        ensures
            r == self.scripts().len(),
    {
        self.scripts.len()
    }

    /// Forgets every script, as a scan does before it reads the directory.
    pub fn clear(&mut self)
        ensures
            final(self).root() == old(self).root(),
            final(self).scripts() == Seq::<ScriptView>::empty(),
    {
        self.scripts.clear();
        assert(self.scripts() =~= Seq::<ScriptView>::empty());
    }

    /// Adds a script, in the place of the script with the same path if
    /// there is one.
    pub fn add_script(&mut self, script: PythonScript)
        ensures
            final(self).root() == old(self).root(),
            (forall|j: int|
                0 <= j < old(self).scripts().len() ==> (#[trigger] old(
                    self,
                ).scripts()[j]).relative_path != script@.relative_path) ==> final(self).scripts()
                == old(self).scripts().push(script@),
            forall|i: int|
                0 <= i < old(self).scripts().len() && old(self).scripts()[i].relative_path
                    == script@.relative_path && (forall|j: int|
                    0 <= j < i ==> (#[trigger] old(self).scripts()[j]).relative_path
                        != script@.relative_path) ==> final(self).scripts() == old(
                    self,
                ).scripts().update(i, script@),
    {
        let mut i: usize = 0;
        while i < self.scripts.len()
            invariant
                i <= self.scripts.len(),
                *self == *old(self),
                forall|j: int|
                    0 <= j < i ==> (#[trigger] self.scripts()[j]).relative_path
                        != script@.relative_path,
            decreases self.scripts.len() - i,
        {
            if text_eq(self.scripts[i].relative_path.as_str(), script.relative_path.as_str()) {
                assert(self.scripts()[i as int].relative_path == script@.relative_path);
                self.scripts.set(i, script);
                assert(self.scripts() =~= old(self).scripts().update(i as int, script@));
                assert forall|k: int|
                    0 <= k < old(self).scripts().len() && old(self).scripts()[k].relative_path
                        == script@.relative_path && (forall|j: int|
                        0 <= j < k ==> (#[trigger] old(self).scripts()[j]).relative_path
                            != script@.relative_path) implies k == i by {
                    if k < i {
                        assert(old(self).scripts()[k].relative_path != script@.relative_path);
                    } else if i < k {
                        assert(old(self).scripts()[i as int].relative_path
                            != script@.relative_path);
                    }
                }
                return ;
            }
            i = i + 1;
        }
        self.scripts.push(script);
        assert(self.scripts() =~= old(self).scripts().push(script@));
    }

    /// The script at `relative_path`, as its text `content` describes it:
    /// under the name and with the description of its header, or else
    /// under `default_name` and without a description.
    pub fn describe(content: &str, relative_path: String, category: String, default_name: String)
        -> (r: PythonScript)
        ensures
            r.relative_path == relative_path,
            r.category == category,
            forall|i: int|
                is_first_meta(text_lines(content@), "name"@, i) ==> Some(r.name@) == meta_on(
                    text_lines(content@)[i],
                    "name"@,
                ),
            no_meta(text_lines(content@), "name"@) ==> r.name == default_name,
            forall|i: int|
                is_first_meta(text_lines(content@), "description"@, i) ==> Some(r.description@)
                    == meta_on(text_lines(content@)[i], "description"@),
            no_meta(text_lines(content@), "description"@) ==> r.description@ == ""@,
    {
        let name = match Self::parse_meta(content, "name") {
            Some(n) => n,
            None => default_name,
        };
        let description = match Self::parse_meta(content, "description") {
            Some(d) => d,
            None => String::from_str(""),
        };
        PythonScript { name, description, relative_path, category }
    }

    /// The entry `key` of the header of a script: what follows `# @key `
    /// on the first of the script's first thirty lines that, trimmed,
    /// begins so.
    pub fn parse_meta(content: &str, key: &str) -> (r: Option<String>)
        ensures
            match r {
                Some(value) => exists|i: int|
                    #[trigger] is_first_meta(text_lines(content@), key@, i) && Some(value@)
                        == meta_on(text_lines(content@)[i], key@),
                None => no_meta(text_lines(content@), key@),
            },
            forall|i: int|
                is_first_meta(text_lines(content@), key@, i) ==> r is Some && Some(r->0@)
                    == meta_on(text_lines(content@)[i], key@),
    {
        let lines = lines_of(content);
        let mut tag = String::from_str("# @");
        tag.append(key);
        tag.append(" ");
        let limit = if lines.len() < HEADER_LINES {
            lines.len()
        } else {
            HEADER_LINES
        };
        let mut i: usize = 0;
        while i < limit
            invariant
                i <= limit,
                limit == header_len(text_lines(content@).len() as int),
                tag@ == meta_tag(key@),
                lines@.len() == text_lines(content@).len(),
                forall|j: int| 0 <= j < lines@.len() ==> (#[trigger] lines@[j])@ == text_lines(
                    content@,
                )[j],
                forall|j: int| 0 <= j < i ==> meta_on(#[trigger] text_lines(content@)[j], key@)
                    is None,
            decreases limit - i,
        {
            let line = trimmed(lines[i].as_str());
            assert(lines@[i as int]@ == text_lines(content@)[i as int]);
            match strip_prefix(line.as_str(), tag.as_str()) {
                Some(value) => {
                    assert(is_first_meta(text_lines(content@), key@, i as int));
                    assert forall|k: int|
                        is_first_meta(text_lines(content@), key@, k) implies k == i by {
                        if k < i {
                            assert(meta_on(text_lines(content@)[k], key@) is None);
                        } else if i < k {
                            assert(meta_on(text_lines(content@)[i as int], key@) is None);
                        }
                    }
                    return Some(value);
                },
                None => {},
            }
            i = i + 1;
        }
        assert forall|k: int| !is_first_meta(text_lines(content@), key@, k) by {
            if is_first_meta(text_lines(content@), key@, k) {
                assert(meta_on(text_lines(content@)[k], key@) is None);
            }
        }
        None
    }

    /// The scripts in groups, one for each category, in the order in which
    /// the categories first occur; each group holds its scripts in the
    /// order of the library.
    pub fn get_by_category(&self) -> (r: Vec<(String, Vec<&PythonScript>)>)
        ensures
            r@.len() == categories(self.scripts(), self.scripts().len() as int).len(),
            forall|g: int|
                0 <= g < r@.len() ==> (#[trigger] r@[g]).0@ == categories(
                    self.scripts(),
                    self.scripts().len() as int,
                )[g] && group_view(r@[g].1@) == members(
                    self.scripts(),
                    r@[g].0@,
                    self.scripts().len() as int,
                ),
    {
        let mut groups: Vec<(String, Vec<&PythonScript>)> = Vec::new();
        let mut i: usize = 0;
        assert(categories(self.scripts(), 0) =~= Seq::<Seq<char>>::empty());
        while i < self.scripts.len()
            invariant
                i <= self.scripts.len(),
                groups@.len() == categories(self.scripts(), i as int).len(),
                forall|g: int|
                    0 <= g < groups@.len() ==> (#[trigger] groups@[g]).0@ == categories(
                        self.scripts(),
                        i as int,
                    )[g] && group_view(groups@[g].1@) == members(
                        self.scripts(),
                        groups@[g].0@,
                        i as int,
                    ),
            decreases self.scripts.len() - i,
        {
            let script = &self.scripts[i];
            assert(self.scripts()[i as int] == script@);
            let ghost before = groups@;
            let ghost cats = categories(self.scripts(), i as int);
            let found = find_group(&groups, script.category.as_str());
            match found {
                Some(at) => {
                    proof {
                        assert(cats[at as int] == script@.category);
                        assert(cats.contains(script@.category));
                        Self::lemma_categories_distinct(self.scripts(), i as int);
                    }
                    let entry = &mut groups[at];
                    entry.1.push(script);
                    proof {
                        assert(group_view(groups@[at as int].1@) =~= group_view(
                            before[at as int].1@,
                        ).push(script@));
                        assert forall|h: int| 0 <= h < groups@.len() implies (
                        #[trigger] groups@[h]).0@ == categories(self.scripts(), i as int + 1)[h]
                            && group_view(groups@[h].1@) == members(
                            self.scripts(),
                            groups@[h].0@,
                            i as int + 1,
                        ) by {
                            if h != at {
                                assert(groups@[h] == before[h]);
                                assert(cats[h] != cats[at as int]);
                            }
                        }
                    }
                },
                None => {
                    assert(!cats.contains(script@.category)) by {
                        if cats.contains(script@.category) {
                            let h = choose|h: int|
                                0 <= h < cats.len() && cats[h] == script@.category;
                            assert(before[h].0@ != script@.category);
                        }
                    }
                    let mut group: Vec<&PythonScript> = Vec::new();
                    group.push(script);
                    proof {
                        Self::lemma_new_category(self.scripts(), script@.category, i as int);
                        assert(group_view(group@) =~= Seq::<ScriptView>::empty().push(script@));
                    }
                    groups.push((script.category.clone(), group));
                    assert forall|h: int| 0 <= h < groups@.len() implies (#[trigger] groups@[h]).0@
                        == categories(self.scripts(), i as int + 1)[h] && group_view(
                        groups@[h].1@,
                    ) == members(self.scripts(), groups@[h].0@, i as int + 1) by {
                        if h < before.len() {
                            assert(groups@[h] == before[h]);
                        }
                    }
                },
            }
            i = i + 1;
        }
        groups
    }

    /// No category is listed twice.
    proof fn lemma_categories_distinct(scripts: Seq<ScriptView>, upto: int)
        requires
            0 <= upto <= scripts.len(),
        ensures
            forall|a: int, b: int|
                0 <= a < b < categories(scripts, upto).len() ==> categories(scripts, upto)[a]
                    != categories(scripts, upto)[b],
        decreases upto,
    {
        if upto > 0 {
            Self::lemma_categories_distinct(scripts, upto - 1);
            let before = categories(scripts, upto - 1);
            if !before.contains(scripts[upto - 1].category) {
                let now = before.push(scripts[upto - 1].category);
                assert forall|a: int, b: int| 0 <= a < b < now.len() implies now[a] != now[b] by {
                    if b == before.len() {
                        if now[a] == now[b] {
                            assert(before[a] == scripts[upto - 1].category);
                            assert(before.contains(scripts[upto - 1].category));
                        }
                    }
                }
            }
        }
    }

    /// A category that has not occurred among the first `upto` scripts has
    /// no members among them.
    proof fn lemma_new_category(scripts: Seq<ScriptView>, category: Seq<char>, upto: int)
        requires
            0 <= upto <= scripts.len(),
            !categories(scripts, upto).contains(category),
        ensures
            members(scripts, category, upto) == Seq::<ScriptView>::empty(),
        decreases upto,
    {
        if upto > 0 {
            let before = categories(scripts, upto - 1);
            if before.contains(scripts[upto - 1].category) {
                assert(categories(scripts, upto) == before);
                if scripts[upto - 1].category == category {
                    assert(before.contains(category));
                }
            } else {
                let now = before.push(scripts[upto - 1].category);
                assert(now[before.len() as int] == scripts[upto - 1].category);
                if scripts[upto - 1].category == category {
                    assert(now.contains(category));
                }
                if before.contains(category) {
                    let h = choose|h: int| 0 <= h < before.len() && before[h] == category;
                    assert(now[h] == category);
                    assert(now.contains(category));
                }
            }
            Self::lemma_new_category(scripts, category, upto - 1);
        }
    }
}

} // verus!
