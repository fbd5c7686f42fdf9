//! Finding the local VS Code program.

use vstd::prelude::*;
use crate::error::{Error, ErrorView, Failure};
use crate::text::{self, chars_of, find_first, find_last, same, split_at};

verus! {

/// The platform, as far as it matters to which files can be run.
#[derive(Debug)]
pub enum Platform {
    /// Programs are found by their extension; `pathext` is the variable
    /// `PATHEXT`, where it is set.
    Windows { pathext: Option<String> },
    /// Programs are found by their name.
    Other,
}

impl Platform {
    /// The list of extensions that a program may have.
    pub open spec fn extensions(self) -> Seq<Seq<char>> {
        match self {
            Platform::Windows { pathext: Some(list) } => text::split(list@, ';'),
            Platform::Windows { pathext: None } => text::split(".COM;.EXE;.BAT;.CMD"@, ';'),
            Platform::Other => Seq::empty(),
        }
    }
}

/// Whether a program is named by a path.
pub open spec fn names_a_path(program: Seq<char>) -> bool {
    program.contains('/') || program.contains('\\')
}

/// Whether a text is one file name on every platform: it holds nothing that
/// could part it.
pub open spec fn is_file_name(s: Seq<char>) -> bool {
    !s.contains('/') && !s.contains('\\') && !s.contains(':')
}

/// Whether a file name has an extension: a `.` that does not come first.
pub open spec fn has_extension(name: Seq<char>) -> bool {
    name != ".."@ && text::last_of(name, '.') > 0
}

/// What follows the last `/`, `\` or `:` of a text.
pub open spec fn last_piece(s: Seq<char>) -> Seq<char> {
    let slash = text::last_of(s, '/');
    let backslash = text::last_of(s, '\\');
    let colon = text::last_of(s, ':');
    let separator = if slash > backslash { slash } else { backslash };
    s.skip((if separator > colon { separator } else { colon }) + 1)
}

/// Whether a text begins with two separators. On Windows the beginning of
/// such a text names a share or a device, and belongs to no file name.
pub open spec fn opens_with_two_separators(s: Seq<char>) -> bool {
    s.len() >= 2 && (s[0] == '/' || s[0] == '\\') && (s[1] == '/' || s[1] == '\\')
}

/// Whether all platforms agree on whether a text has an extension, however
/// they part it: it is one file name, it holds no `.`, or its last piece has
/// an extension, so that the file name that ends in this piece has it too.
pub open spec fn platforms_agree(s: Seq<char>) -> bool {
    ||| is_file_name(s)
    ||| !s.contains('.')
    ||| has_extension(last_piece(s)) && !opens_with_two_separators(s)
}

/// Whether a text has no colon but that of a drive such as `C:`, which comes
/// first.
pub open spec fn has_only_a_drive_colon(s: Seq<char>) -> bool {
    let colon = text::last_of(s, ':');
    colon == -1 || (colon == 1 && ('a' <= s[0] <= 'z' || 'A' <= s[0] <= 'Z'))
}

/// Whether the last piece of a text is the file name that Windows finds in
/// it. There both `/` and `\` part a path, a drive may come before it, and an
/// empty piece or `.` at its end does not count.
pub open spec fn ends_in_file_name(s: Seq<char>) -> bool {
    &&& !opens_with_two_separators(s)
    &&& has_only_a_drive_colon(s)
    &&& last_piece(s).len() > 0
    &&& last_piece(s) != "."@
}

/// Whether it is settled by the text alone if a program has an extension
/// where programs are found by theirs.
pub open spec fn extension_is_settled(program: Seq<char>) -> bool {
    ends_in_file_name(program) || platforms_agree(program)
}

/// `program` with each of the extensions that is not empty.
pub open spec fn suffixed(program: Seq<char>, extensions: Seq<Seq<char>>) -> Seq<Seq<char>>
    decreases extensions.len(),
{
    if extensions.len() == 0 {
        Seq::empty()
    } else {
        let before = suffixed(program, extensions.drop_last());
        if extensions.last().len() == 0 {
            before
        } else {
            before.push(program + extensions.last())
        }
    }
}

/// The file names under which a program is looked for, in this order.
pub open spec fn candidate_names(
    program: Seq<char>,
    extended: bool,
    platform: Platform,
) -> Seq<Seq<char>> {
    if extended {
        seq![program]
    } else {
        suffixed(program, platform.extensions()).push(program)
    }
}

/// `Path::extension` from the standard library finds the extension of a file
/// name: what follows its last `.`, unless that `.` comes first or the name
/// is `..`. The file name is the end of the text, from a separator or from
/// the colon of a Windows drive on. So a text without a `.` has no extension,
/// and one whose last piece has an extension has one, unless all of it can be
/// the name of a Windows share or device. Nothing is stated of any other text
/// that is more than one file name: how it is parted depends on the platform.
#[verifier::external_body]
fn path_has_extension(program: &str) -> (r: bool)
    ensures
        platforms_agree(program@) ==> r == has_extension(program@),
{
    std::path::Path::new(program).extension().is_some()
}

/// What follows the last `/`, `\` or `:` of a text.
fn piece_at_end(s: &str) -> (r: &str)
    ensures
        r@ == last_piece(s@),
{
    let cs = chars_of(s);
    let length: usize = cs.len();
    proof {
        text::lemma_last_of(s@, '/');
        text::lemma_last_of(s@, '\\');
        text::lemma_last_of(s@, ':');
    }
    let mut start: usize = 0;
    if let Some(k) = find_last(&cs, '/') {
        start = k + 1;
    }
    if let Some(k) = find_last(&cs, '\\') {
        if k + 1 > start {
            start = k + 1;
        }
    }
    if let Some(k) = find_last(&cs, ':') {
        if k + 1 > start {
            start = k + 1;
        }
    }
    assert(s@.subrange(start as int, length as int) == s@.skip(start as int));
    s.substring_char(start, length)
}

fn is_separator(c: char) -> (r: bool)
    ensures
        r == (c == '/' || c == '\\'),
{
    c == '/' || c == '\\'
}

/// Whether a program has an extension. Where programs are found by theirs and
/// the program ends in its file name, this file name is looked at alone.
fn is_extended(program: &str, platform: &Platform) -> (r: bool)
    ensures
        platform is Windows && extension_is_settled(program@) ==> r == has_extension(
            last_piece(program@),
        ),
{
    let cs = chars_of(program);
    let piece = piece_at_end(program);
    proof {
        lemma_last_piece(program@);
    }
    let opens_with_two = cs.len() >= 2 && is_separator(cs[0]) && is_separator(cs[1]);
    let drive_colon_only = match find_last(&cs, ':') {
        None => true,
        Some(colon) => colon == 1 && (('a' <= cs[0] && cs[0] <= 'z') || ('A' <= cs[0] && cs[0]
            <= 'Z')),
    };
    match platform {
        Platform::Windows { .. } if !opens_with_two && drive_colon_only && !piece.is_empty()
            && !same(piece, ".") => path_has_extension(piece),
        _ => path_has_extension(program),
    }
}

/// The last piece of a text is one file name, and where all platforms agree,
/// it decides whether the text has an extension.
proof fn lemma_last_piece(s: Seq<char>)
    ensures
        is_file_name(last_piece(s)),
        platforms_agree(s) ==> has_extension(s) == has_extension(last_piece(s)),
{
    let piece = last_piece(s);
    let cut = s.len() - piece.len();
    text::lemma_last_of(s, '/');
    text::lemma_last_of(s, '\\');
    text::lemma_last_of(s, ':');
    text::lemma_last_of(s, '.');
    text::lemma_last_of(piece, '.');
    assert(forall|i: int| 0 <= i < piece.len() ==> #[trigger] piece[i] == s[cut + i]);
    let dot = text::last_of(piece, '.');
    if is_file_name(s) {
        assert(piece == s);
    } else if !s.contains('.') {
        assert(dot < 0);
    } else if has_extension(piece) {
        assert(s[cut + dot] == '.');
        assert(s != ".."@) by {
            reveal_strlit("..");
        }
    }
}

/// Whether a program is named by a path rather than to be searched for. On
/// every platform an absolute path holds a separator.
pub fn has_path_separator(value: &str) -> (r: bool)
    ensures
        r == names_a_path(value@),
{
    let cs = chars_of(value);
    proof {
        text::lemma_first_of(value@, '/');
        text::lemma_first_of(value@, '\\');
    }
    let slash: usize = find_first(&cs, '/');
    let backslash: usize = find_first(&cs, '\\');
    slash < cs.len() || backslash < cs.len()
}

/// The file names under which a program is looked for; `extended` says
/// whether it has an extension.
pub fn candidates_for(program: &str, extended: bool, platform: &Platform) -> (r: Vec<String>)
    ensures
        text::texts(r@) == candidate_names(program@, extended, *platform),
{
    let mut r: Vec<String> = Vec::new();
    assert(text::texts(r@) == Seq::<Seq<char>>::empty());
    if !extended {
        if let Platform::Windows { pathext } = platform {
            let list = match pathext {
                Some(list) => list.clone(),
                None => ".COM;.EXE;.BAT;.CMD".to_owned(),
            };
            let extensions = split_at(list.as_str(), ';');
            let ghost all = text::texts(extensions@);
            let mut i: usize = 0;
            while i < extensions.len()
                invariant
                    i <= extensions.len(),
                    all == text::texts(extensions@),
                    text::texts(r@) == suffixed(program@, all.take(i as int)),
                decreases extensions.len() - i,
            {
                let ghost before = text::texts(r@);
                let ghost upto = all.take(i + 1);
                assert(upto.drop_last() == all.take(i as int));
                assert(upto.last() == extensions@[i as int]@);
                let extension = extensions[i].as_str();
                if !extension.is_empty() {
                    r.push(program.to_owned().concat(extension));
                    assert(text::texts(r@) == before.push(program@ + extension@));
                }
                i += 1;
            }
            assert(all.take(i as int) == all);
        }
    }
    let ghost before = text::texts(r@);
    r.push(program.to_owned());
    assert(text::texts(r@) == before.push(program@));
    r
}

/// The file names under which a program is looked for: with an extension of
/// its own, only as it is; else with each extension that the platform has for
/// programs, and then as it is.
pub fn executable_candidates(program: &str, platform: &Platform) -> (r: Vec<String>)
    ensures
        extension_is_settled(program@) || platform is Other ==> text::texts(r@) == candidate_names(
            program@,
            has_extension(last_piece(program@)),
            *platform,
        ),
        exists|extended: bool|
            text::texts(r@) == #[trigger] candidate_names(program@, extended, *platform),
{
    let extended = is_extended(program, platform);
    proof {
        lemma_extension_irrelevant(program@, *platform);
    }
    candidates_for(program, extended, platform)
}

proof fn lemma_extension_irrelevant(program: Seq<char>, platform: Platform)
    ensures
        platform is Other ==> candidate_names(program, true, platform) == candidate_names(
            program,
            false,
            platform,
        ),
{
    if platform is Other {
        assert(candidate_names(program, false, platform) == seq![program]);
    }
}

/// What is known of a file, as far as it matters to whether it can be run.
#[derive(Debug, Clone, Copy)]
pub enum FileState {
    /// There is no such file, or it is something else.
    NotAFile,
    /// Its permissions cannot be read.
    Unreadable,
    /// It has these permission bits.
    Mode(u32),
    /// The platform has no permission bits.
    NoMode,
}

/// Whether a file can be run.
pub fn is_executable_file(state: FileState) -> (r: bool)
    ensures
        r == (match state {
            FileState::NotAFile => false,
            FileState::Unreadable => false,
            FileState::Mode(bits) => bits & 0o111u32 != 0,
            FileState::NoMode => true,
        }),
{
    match state {
        FileState::NotAFile => false,
        FileState::Unreadable => false,
        FileState::Mode(bits) => bits & 0o111u32 != 0,
        FileState::NoMode => true,
    }
}

/// A search for a local program, file by file.
#[derive(Debug)]
pub struct ProgramSearch {
    pub program: String,
    /// The file names to look for.
    pub candidates: Vec<String>,
    /// How many directories the search path has; `None` where the program is
    /// named by a path.
    pub directories: Option<usize>,
    /// The directory that is looked into next.
    pub directory: usize,
    /// The file name that is looked for next.
    pub candidate: usize,
}

/// What to do next in a search.
#[derive(Debug)]
pub enum SearchStep {
    /// Find out whether the file `name`, in the given directory of the search
    /// path or by itself, can be run.
    Probe { directory: Option<usize>, name: String },
    /// Run the file `name`, in the given directory or by itself.
    Found { directory: Option<usize>, name: String },
    /// There is no such program.
    Failed { error: Error },
}

/// What a `SearchStep` says.
pub enum SearchStepView {
    Probe { directory: Option<usize>, name: Seq<char> },
    Found { directory: Option<usize>, name: Seq<char> },
    Failed { error: ErrorView },
}

impl View for SearchStep {
    type V = SearchStepView;

    open spec fn view(&self) -> SearchStepView {
        match self {
            SearchStep::Probe { directory, name } => SearchStepView::Probe {
                directory: *directory,
                name: name@,
            },
            SearchStep::Found { directory, name } => SearchStepView::Found {
                directory: *directory,
                name: name@,
            },
            SearchStep::Failed { error } => SearchStepView::Failed { error: error@ },
        }
    }
}

/// What a `ProgramSearch` holds.
pub struct SearchView {
    pub program: Seq<char>,
    pub candidates: Seq<Seq<char>>,
    pub directories: Option<usize>,
    pub directory: int,
    pub candidate: int,
}

impl View for ProgramSearch {
    type V = SearchView;

    open spec fn view(&self) -> SearchView {
        SearchView {
            program: self.program@,
            candidates: text::texts(self.candidates@),
            directories: self.directories,
            directory: self.directory as int,
            candidate: self.candidate as int,
        }
    }
}

impl SearchView {
    pub open spec fn wf(self) -> bool {
        match self.directories {
            Some(n) => 0 <= self.directory <= n && 0 <= self.candidate < self.candidates.len(),
            None => self.directory == 0 && 0 <= self.candidate <= self.candidates.len(),
        }
    }

    /// Whether there is a file left to look at.
    pub open spec fn is_open(self) -> bool {
        match self.directories {
            Some(n) => self.directory < n,
            None => self.candidate < self.candidates.len(),
        }
    }

    /// How many directories are left to look into.
    pub open spec fn directories_left(self) -> int {
        match self.directories {
            Some(n) => n - self.directory,
            None => 0,
        }
    }

    /// The directory of the file that is looked at next.
    pub open spec fn place(self) -> Option<usize> {
        match self.directories {
            Some(_) => Some(self.directory as usize),
            None => None,
        }
    }

    /// What to do next: look at the next file; where none is left, a program
    /// that is named by a path is run as it is, and any other is not found.
    pub open spec fn step(self) -> SearchStepView {
        if self.is_open() {
            SearchStepView::Probe { directory: self.place(), name: self.candidates[self.candidate] }
        } else if self.directories is None {
            SearchStepView::Found { directory: None, name: self.program }
        } else {
            SearchStepView::Failed { error: Failure::ProgramNotFound { program: self.program } }
        }
    }

    /// The search without the file that was looked at: every name is looked
    /// for in a directory before the next directory.
    pub open spec fn advanced(self) -> SearchView {
        if self.directories is Some && self.candidate + 1 >= self.candidates.len() {
            SearchView { directory: self.directory + 1, candidate: 0, ..self }
        } else {
            SearchView { candidate: self.candidate + 1, ..self }
        }
    }
}

/// How the search for a program begins. `extended` says whether the program
/// has an extension, and `directories` how many directories the search path
/// has, where there is one.
pub open spec fn search_start(
    program: Seq<char>,
    extended: bool,
    platform: Platform,
    directories: Option<usize>,
) -> Result<SearchView, ErrorView> {
    if names_a_path(program) {
        let candidates = if platform is Windows && !extended {
            candidate_names(program, extended, platform)
        } else {
            Seq::empty()
        };
        Ok(SearchView { program, candidates, directories: None, directory: 0, candidate: 0 })
    } else if directories is None {
        Err(Failure::PathNotSet { program })
    } else {
        Ok(
            SearchView {
                program,
                candidates: candidate_names(program, extended, platform),
                directories,
                directory: 0,
                candidate: 0,
            },
        )
    }
}

impl ProgramSearch {
    /// Begins a search for a program of which it is known whether it has an
    /// extension.
    pub fn start_with(
        program: &str,
        extended: bool,
        platform: &Platform,
        directories: Option<usize>,
    ) -> (r: Result<ProgramSearch, Error>)
        ensures
            match r {
                Ok(search) => search@.wf() && search_start(
                    program@,
                    extended,
                    *platform,
                    directories,
                ) == Ok::<SearchView, ErrorView>(search@),
                Err(e) => search_start(program@, extended, *platform, directories) == Err::<
                    SearchView,
                    ErrorView,
                >(e@),
            },
    {
        if has_path_separator(program) {
            let candidates = match platform {
                Platform::Windows { .. } if !extended => candidates_for(
                    program,
                    extended,
                    platform,
                ),
                _ => Vec::new(),
            };
            assert(text::texts(candidates@) == if platform is Windows && !extended {
                candidate_names(program@, extended, *platform)
            } else {
                Seq::<Seq<char>>::empty()
            });
            return Ok(
                ProgramSearch {
                    program: program.to_owned(),
                    candidates,
                    directories: None,
                    directory: 0,
                    candidate: 0,
                },
            );
        }
        if directories.is_none() {
            return Err(Failure::PathNotSet { program: program.to_owned() });
        }
        let candidates = candidates_for(program, extended, platform);
        assert(candidate_names(program@, extended, *platform).len() > 0);
        Ok(
            ProgramSearch {
                program: program.to_owned(),
                candidates,
                directories,
                directory: 0,
                candidate: 0,
            },
        )
    }

    /// Begins a search for a program; `directories` says how many directories
    /// the search path has, where there is one.
    pub fn start(program: &str, platform: &Platform, directories: Option<usize>) -> (r: Result<
        ProgramSearch,
        Error,
    >)
        ensures
            r matches Ok(search) ==> search@.wf() && exists|extended: bool| #[trigger]
                search_start(program@, extended, *platform, directories) == Ok::<
                    SearchView,
                    ErrorView,
                >(search@),
            r matches Ok(search) ==> extension_is_settled(program@) || platform is Other
                ==> search_start(
                program@,
                has_extension(last_piece(program@)),
                *platform,
                directories,
            ) == Ok::<SearchView, ErrorView>(search@),
            r matches Err(e) ==> !names_a_path(program@) && directories is None && e@ == (
            Failure::PathNotSet { program: program@ }),
            r is Err <==> !names_a_path(program@) && directories is None,
    {
        let extended = is_extended(program, platform);
        proof {
            lemma_extension_irrelevant(program@, *platform);
        }
        ProgramSearch::start_with(program, extended, platform, directories)
    }

    /// What to do next.
    pub fn step(&self) -> (r: SearchStep)
        requires
            self@.wf(),
        ensures
            r@ == self@.step(),
    {
        match self.directories {
            Some(n) => {
                if self.directory < n {
                    SearchStep::Probe {
                        directory: Some(self.directory),
                        name: self.candidates[self.candidate].clone(),
                    }
                } else {
                    SearchStep::Failed {
                        error: Failure::ProgramNotFound { program: self.program.clone() },
                    }
                }
            },
            None => {
                if self.candidate < self.candidates.len() {
                    SearchStep::Probe {
                        directory: None,
                        name: self.candidates[self.candidate].clone(),
                    }
                } else {
                    SearchStep::Found { directory: None, name: self.program.clone() }
                }
            },
        }
    }

    /// What to do when it is known whether the file that was to be looked at
    /// can be run: run it, or go on.
    pub fn answer(&mut self, executable: bool) -> (r: SearchStep)
        requires
            old(self)@.wf(),
            old(self)@.is_open(),
        ensures
            final(self)@.wf(),
            executable ==> *final(self) == *old(self) && r@ == (SearchStepView::Found {
                directory: old(self)@.place(),
                name: old(self)@.candidates[old(self)@.candidate],
            }),
            !executable ==> final(self)@ == old(self)@.advanced() && r@ == final(self)@.step(),
    {
        let count: usize = self.candidates.len();
        if executable {
            let directory = match self.directories {
                Some(_) => Some(self.directory),
                None => None,
            };
            return SearchStep::Found { directory, name: self.candidates[self.candidate].clone() };
        }
        if self.directories.is_some() && self.candidate + 1 >= count {
            self.directory = self.directory + 1;
            self.candidate = 0;
        } else {
            self.candidate = self.candidate + 1;
        }
        self.step()
    }
}

/// On Windows a program that is named by a path without a `.`, or by one that
/// ends in a file name without an extension, is looked for with each extension
/// that programs have, and then as it is.
pub proof fn law_path_is_completed(
    program: Seq<char>,
    platform: Platform,
    directories: Option<usize>,
)
    requires
        names_a_path(program),
        !program.contains('.') || (ends_in_file_name(program) && !has_extension(
            last_piece(program),
        )),
        platform is Windows,
    ensures
        extension_is_settled(program),
        search_start(program, has_extension(last_piece(program)), platform, directories) == Ok::<
            SearchView,
            ErrorView,
        >(
            SearchView {
                program,
                candidates: suffixed(program, platform.extensions()).push(program),
                directories: None,
                directory: 0,
                candidate: 0,
            },
        ),
{
    lemma_last_piece(program);
    text::lemma_last_of(program, '.');
}

/// A program that is named by a path whose last piece has an extension is run
/// as it is, and no file is looked at.
pub proof fn law_extended_path_is_run_as_it_is(
    program: Seq<char>,
    platform: Platform,
    directories: Option<usize>,
)
    requires
        names_a_path(program),
        has_extension(last_piece(program)),
        program.len() < 2 || !((program[0] == '/' || program[0] == '\\') && (program[1] == '/'
            || program[1] == '\\')),
    ensures
        extension_is_settled(program),
        search_start(
            program,
            has_extension(last_piece(program)),
            platform,
            directories,
        ) matches Ok(search) && search.step() == (SearchStepView::Found {
            directory: None,
            name: program,
        }),
{
}

/// What a search comes to where `runs` says which file names, by their
/// directory and their place among the candidates, can be run.
pub open spec fn search_result(
    search: SearchView,
    runs: spec_fn(int, int) -> bool,
) -> SearchStepView
    decreases search.directories_left(), search.candidates.len() - search.candidate,
    when search.wf()
{
    if !search.is_open() {
        search.step()
    } else if runs(search.directory, search.candidate) {
        SearchStepView::Found {
            directory: search.place(),
            name: search.candidates[search.candidate],
        }
    } else {
        search_result(search.advanced(), runs)
    }
}

/// Whether the file at (`d`, `c`) is looked at no earlier than the one that
/// is next.
pub open spec fn lies_ahead(search: SearchView, d: int, c: int) -> bool {
    &&& d > search.directory || (d == search.directory && c >= search.candidate)
    &&& 0 <= c < search.candidates.len()
    &&& d < (match search.directories {
        Some(n) => n as int,
        None => 1,
    })
}

/// A search finds the first file that can be run: the directories in their
/// order, and in each the names in theirs. Where none can be run, a program
/// that is named by a path is run as it is, and any other is not found.
pub proof fn law_search_finds_the_first(search: SearchView, runs: spec_fn(int, int) -> bool)
    requires
        search.wf(),
    ensures
        (forall|d: int, c: int| #[trigger] lies_ahead(search, d, c) ==> !runs(d, c))
            ==> search_result(search, runs) == (if search.directories is None {
            SearchStepView::Found { directory: None, name: search.program }
        } else {
            SearchStepView::Failed { error: Failure::ProgramNotFound { program: search.program } }
        }),
        forall|d: int, c: int| #[trigger]
            lies_ahead(search, d, c) && runs(d, c) && (forall|x: int, y: int| #[trigger]
                lies_ahead(search, x, y) && (x < d || (x == d && y < c)) ==> !runs(x, y))
                ==> search_result(search, runs) == (SearchStepView::Found {
                directory: (if search.directories is Some { Some(d as usize) } else { None }),
                name: search.candidates[c],
            }),
    decreases search.directories_left(), search.candidates.len() - search.candidate,
{
    if search.is_open() {
        assert(lies_ahead(search, search.directory, search.candidate));
        let next = search.advanced();
        law_search_finds_the_first(next, runs);
        assert(forall|d: int, c: int| #[trigger]
            lies_ahead(next, d, c) ==> lies_ahead(search, d, c));
        assert(forall|d: int, c: int| #[trigger]
            lies_ahead(search, d, c) && !(d == search.directory && c == search.candidate)
                ==> lies_ahead(next, d, c));
    }
}

/// A file name has an extension exactly where a `.` stands in it after the
/// first character, but for `..`.
pub proof fn law_extension_form(name: Seq<char>)
    ensures
        has_extension(name) <==> name != ".."@ && exists|k: int|
            0 < k < name.len() && #[trigger] name[k] == '.',
{
    text::lemma_last_of(name, '.');
    if has_extension(name) {
        assert(name[text::last_of(name, '.')] == '.');
    }
}

/// What follows the last `/`, `\` or `:` of a text is its last piece, and a
/// text without any of them is one piece.
pub proof fn law_last_piece_form(head: Seq<char>, c: char, piece: Seq<char>)
    requires
        c == '/' || c == '\\' || c == ':',
        !piece.contains('/') && !piece.contains('\\') && !piece.contains(':'),
    ensures
        last_piece(head.push(c) + piece) == piece,
        last_piece(piece) == piece,
{
    let whole = head.push(c) + piece;
    let cut = head.len() as int;
    assert(whole[cut] == c);
    assert forall|i: int| cut < i < whole.len() implies whole[i] != '/' && whole[i] != '\\'
        && whole[i] != ':' by {
        assert(whole[i] == piece[i - cut - 1]);
    }
    text::lemma_last_of(whole, '/');
    text::lemma_last_of(whole, '\\');
    text::lemma_last_of(whole, ':');
    text::lemma_last_of_is(whole, c, cut);
    assert(whole.skip(cut + 1) == piece);
    text::lemma_last_of(piece, '/');
    text::lemma_last_of(piece, '\\');
    text::lemma_last_of(piece, ':');
    assert(piece.skip(0) == piece);
}

/// A program that has an extension, and any program where programs are not
/// found by theirs, is looked for under its own name alone.
pub proof fn law_own_name_alone(program: Seq<char>, extended: bool, platform: Platform)
    ensures
        candidate_names(program, true, platform) == seq![program],
        platform is Other ==> candidate_names(program, extended, platform) == seq![program],
{
    lemma_extension_irrelevant(program, platform);
}

/// A further extension at the end of `PATHEXT` makes a further name, before
/// the program's own; an empty one makes none.
pub proof fn law_extensions_make_names(
    program: Seq<char>,
    shorter: String,
    longer: String,
    extension: Seq<char>,
)
    requires
        !extension.contains(';'),
        longer@ == shorter@ + ";"@ + extension,
    ensures
        ({
            let before = candidate_names(
                program,
                false,
                Platform::Windows { pathext: Some(shorter) },
            );
            candidate_names(program, false, Platform::Windows { pathext: Some(longer) }) == (
            if extension.len() == 0 {
                before
            } else {
                before.drop_last().push(program + extension).push(program)
            })
        }),
{
    reveal_strlit(";");
    assert(shorter@ + ";"@ + extension == shorter@.push(';') + extension);
    text::lemma_split_next(shorter@, extension, ';');
    let start = text::split(shorter@, ';');
    assert(start.push(extension).drop_last() == start);
    let names = suffixed(program, start);
    assert(names.push(program).drop_last() == names);
}

/// Where `PATHEXT` is one extension, or empty, there are two names, or one;
/// where it is not set, the usual extensions of programs count.
pub proof fn law_first_extensions(program: Seq<char>, single: String)
    requires
        !single@.contains(';'),
    ensures
        candidate_names(program, false, Platform::Windows { pathext: Some(single) }) == (
        if single@.len() == 0 {
            seq![program]
        } else {
            seq![program + single@, program]
        }),
        candidate_names(program, false, Platform::Windows { pathext: None }) == seq![
            program + ".COM"@,
            program + ".EXE"@,
            program + ".BAT"@,
            program + ".CMD"@,
            program,
        ],
{
    let empty = Seq::<char>::empty();
    let none = Seq::<Seq<char>>::empty();
    assert(text::split(empty, ';') == seq![empty]);
    assert(seq![empty].drop_last() == none);
    text::lemma_split_append(empty, single@, ';');
    assert(empty + single@ == single@);
    let only = text::split(single@, ';');
    assert(only == seq![single@]);
    assert(only.drop_last() == none);
    assert(suffixed(program, none) == none);
    reveal_strlit(".COM");
    reveal_strlit(".EXE");
    reveal_strlit(".BAT");
    reveal_strlit(".CMD");
    reveal_strlit(".COM;.EXE;.BAT;.CMD");
    text::lemma_split_append(empty, ".COM"@, ';');
    assert(empty + ".COM"@ == ".COM"@);
    let a = ".COM"@.push(';') + ".EXE"@;
    text::lemma_split_next(".COM"@, ".EXE"@, ';');
    let b = a.push(';') + ".BAT"@;
    text::lemma_split_next(a, ".BAT"@, ';');
    text::lemma_split_next(b, ".CMD"@, ';');
    assert(".COM;.EXE;.BAT;.CMD"@ == b.push(';') + ".CMD"@);
    let one = seq![".COM"@];
    let two = one.push(".EXE"@);
    let three = two.push(".BAT"@);
    let four = three.push(".CMD"@);
    assert(text::split(".COM;.EXE;.BAT;.CMD"@, ';') == four);
    assert(four.drop_last() == three);
    assert(three.drop_last() == two);
    assert(two.drop_last() == one);
    assert(one.drop_last() == none);
    assert(suffixed(program, one) == seq![program + ".COM"@]);
    assert(suffixed(program, two) == seq![program + ".COM"@, program + ".EXE"@]);
    let names = seq![program + ".COM"@, program + ".EXE"@, program + ".BAT"@];
    assert(suffixed(program, three) == names);
    assert(suffixed(program, four) == names.push(program + ".CMD"@));
}

/// A program that is named without a separator is looked for in every
/// directory of the search path, from the first one on, under each of its
/// names; without a search path it is an error. One that is named by a path is
/// run as it is where programs are not found by their extension.
pub proof fn law_search_begins(
    program: Seq<char>,
    extended: bool,
    platform: Platform,
    directories: Option<usize>,
)
    ensures
        ({
            let start = search_start(program, extended, platform, directories);
            if program.contains('/') || program.contains('\\') {
                platform is Other ==> (start matches Ok(search) && search.step() == (
                SearchStepView::Found { directory: None, name: program }))
            } else {
                match directories {
                    None => start == Err::<SearchView, ErrorView>(Failure::PathNotSet { program }),
                    Some(n) => start matches Ok(search) && {
                        &&& search.program == program
                        &&& search.candidates == candidate_names(program, extended, platform)
                        &&& search.directories == Some(n)
                        &&& search.directory == 0
                        &&& search.candidate == 0
                    },
                }
            }
        }),
{
}

/// A name without a separator, and the path of a file with that name, be it
/// on a drive and in whatever directory, both leave no doubt about the
/// extension, unless the path begins with two separators.
pub proof fn law_file_names_settle_the_extension(
    drive: Seq<char>,
    directory: Seq<char>,
    separator: char,
    name: Seq<char>,
)
    requires
        drive.len() == 0 || (drive.len() == 2 && ('a' <= drive[0] <= 'z' || 'A' <= drive[0] <= 'Z')
            && drive[1] == ':'),
        !directory.contains(':'),
        separator == '/' || separator == '\\',
        name.len() > 0,
        name != "."@,
        !name.contains('/') && !name.contains('\\') && !name.contains(':'),
        ({
            let path = drive + directory + seq![separator] + name;
            !((path[0] == '/' || path[0] == '\\') && (path[1] == '/' || path[1] == '\\'))
        }),
    ensures
        extension_is_settled(name),
        last_piece(name) == name,
        extension_is_settled(drive + directory + seq![separator] + name),
        last_piece(drive + directory + seq![separator] + name) == name,
        extension_is_settled(drive + name),
        last_piece(drive + name) == name,
{
    let head = drive + directory;
    let path = drive + directory + seq![separator] + name;
    law_last_piece_form(head, separator, name);
    assert(path == head.push(separator) + name);
    let colon = drive.len() - 1;
    assert forall|i: int| colon < i < path.len() implies path[i] != ':' by {
        if i < head.len() {
            assert(path[i] == directory[i - drive.len()]);
        } else if i > head.len() {
            assert(path[i] == name[i - head.len() - 1]);
        }
    }
    assert(drive.len() > 0 ==> path[0] == drive[0] && path[1] == drive[1]);
    text::lemma_last_of_is(path, ':', colon);
    let short = drive + name;
    if drive.len() == 0 {
        assert(short == name);
    } else {
        let letter = drive.take(1);
        assert(short == letter.push(':') + name);
        law_last_piece_form(letter, ':', name);
        assert(short[0] == drive[0] && short[1] == ':');
        assert forall|i: int| 1 < i < short.len() implies short[i] != ':' by {
            assert(short[i] == name[i - 2]);
        }
        text::lemma_last_of_is(short, ':', 1);
        assert(ends_in_file_name(short));
    }
}

} // verus!
