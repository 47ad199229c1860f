//! Rules out of the files of a directory.

use vstd::prelude::*;
use vstd::seq_lib::group_to_multiset_ensures;
use crate::file_order::{distinct_names, in_name_order, name_order_is_determined, name_precedes,
    order_files, the_last_name_stands_last};
use crate::rule::{fault_message, first_fault, no_fault_means_valid, rule_views, valid_rule,
    validate_rule, Rule, RuleView};
use crate::text::{begins_with, trimmed, Log};

verus! {

/// The text of a rule file, told apart by what it is to be read as.
#[derive(Debug)]
pub enum RulesText {
    /// The file holds no rule.
    Empty,
    /// The file holds a JSON array of rules.
    Many { text: String },
    /// The file holds one rule as a JSON object.
    One { text: String },
}

/// Tells by the first character what the text of a rule file is to be read as. What
/// is read is the text without the white space around it.
pub fn frame_rules(contents: &str) -> (r: RulesText)
    ensures
        r is Empty <==> trimmed(contents@).len() == 0,
        r is Many <==> trimmed(contents@).len() > 0 && trimmed(contents@)[0] == '[',
        r matches RulesText::Many { text } ==> text@ == trimmed(contents@),
        r matches RulesText::One { text } ==> text@ == trimmed(contents@),
{
    let body: &str = contents.trim();
    if body.is_empty() {
        RulesText::Empty
    } else if begins_with(body, '[') {
        RulesText::Many { text: body.to_owned() }
    } else {
        RulesText::One { text: body.to_owned() }
    }
}

/// The bytes of `.json`.
pub open spec fn json_suffix() -> Seq<u8> {
    seq![0x2e, 0x6a, 0x73, 0x6f, 0x6e]
}

/// A name whose extension is `json`: it ends with `.json`, and something stands
/// before that.
pub open spec fn is_rule_name(name: Seq<u8>) -> bool {
    name.len() > 5 && name.skip(name.len() - 5) == json_suffix()
}

/// Whether a file with this name is a rule file.
pub fn is_rule_file_name(name: &Vec<u8>) -> (r: bool)
    ensures
        r == is_rule_name(name@),
        r == (name@.len() > 5 && name@.skip(name@.len() - 5) == seq![
            0x2eu8,
            0x6au8,
            0x73u8,
            0x6fu8,
            0x6eu8,
        ]),
{
    let n: usize = name.len();
    if n <= 5 {
        return false;
    }
    let ghost end = name@.skip(n - 5);
    assert(end.len() == 5);
    assert(end[0] == name@[n - 5] && end[1] == name@[n - 4] && end[2] == name@[n - 3] && end[3]
        == name@[n - 2] && end[4] == name@[n - 1]);
    let r: bool = name[n - 5] == 0x2e && name[n - 4] == 0x6a && name[n - 3] == 0x73 && name[n - 2]
        == 0x6f && name[n - 1] == 0x6e;
    proof {
        let json = json_suffix();
        assert(json[0] == 0x2e && json[1] == 0x6a && json[2] == 0x73 && json[3] == 0x6f && json[4]
            == 0x6e);
        if r {
            assert(end == json);
        }
    }
    r
}

/// What became of reading a file.
#[derive(Debug)]
pub enum FileContents {
    /// The file could not be read.
    Unreadable { error: String },
    /// The text is not one that rules can be read from.
    Malformed { error: String },
    /// The rules that the text holds.
    Parsed { rules: Vec<Rule> },
}

/// A file of a directory: its name in the directory, the path that the log gives for
/// it, and what became of reading it.
#[derive(Debug)]
pub struct RuleFile {
    pub name: Vec<u8>,
    pub path: String,
    pub contents: FileContents,
}

/// What became of looking into a directory.
#[derive(Debug)]
pub enum DirectoryListing {
    /// There is no such directory.
    Missing,
    /// The directory could not be read.
    Unreadable { error: String },
    /// The files of the directory, in any order. What became of reading those that are
    /// not rule files is of no account.
    Files { files: Vec<RuleFile> },
}

pub enum ContentsView {
    Unreadable { error: Seq<char> },
    Malformed { error: Seq<char> },
    Parsed { rules: Seq<RuleView> },
}

pub struct FileView {
    pub name: Seq<u8>,
    pub path: Seq<char>,
    pub contents: ContentsView,
}

pub enum ListingView {
    Missing,
    Unreadable { error: Seq<char> },
    Files { files: Seq<FileView> },
}

impl View for FileContents {
    type V = ContentsView;

    open spec fn view(&self) -> ContentsView {
        match self {
            FileContents::Unreadable { error } => ContentsView::Unreadable { error: error@ },
            FileContents::Malformed { error } => ContentsView::Malformed { error: error@ },
            FileContents::Parsed { rules } => ContentsView::Parsed { rules: rule_views(rules@) },
        }
    }
}

impl View for RuleFile {
    type V = FileView;

    open spec fn view(&self) -> FileView {
        FileView { name: self.name@, path: self.path@, contents: self.contents@ }
    }
}

pub open spec fn file_views(files: Seq<RuleFile>) -> Seq<FileView> {
    Seq::new(files.len(), |i: int| files[i]@)
}

impl View for DirectoryListing {
    type V = ListingView;

    open spec fn view(&self) -> ListingView {
        match self {
            DirectoryListing::Missing => ListingView::Missing,
            DirectoryListing::Unreadable { error } => ListingView::Unreadable { error: error@ },
            DirectoryListing::Files { files } => ListingView::Files { files: file_views(files@) },
        }
    }
}

/// The rules of a directory, how many rule files it holds, and how much of it
/// could not be used.
#[derive(Debug)]
pub struct RuleLoadResult {
    pub rules: Vec<Rule>,
    pub json_files_found: usize,
    pub parse_errors: usize,
}

/// No rules, no files and no errors.
pub fn empty_rule_load_result() -> (r: RuleLoadResult)
    ensures
        rule_views(r.rules@) == Seq::<RuleView>::empty(),
        r.json_files_found == 0,
        r.parse_errors == 0,
{
    let r = RuleLoadResult { rules: Vec::new(), json_files_found: 0, parse_errors: 0 };
    assert(rule_views(r.rules@) == Seq::<RuleView>::empty());
    r
}

/// The rules of a list that are fit for use.
pub open spec fn fit_rules(rules: Seq<RuleView>) -> Seq<RuleView> {
    rules.filter(|rule: RuleView| valid_rule(rule))
}

/// What the log says of the rules of a file that are not fit for use.
pub open spec fn unfit_log(path: Seq<char>, rules: Seq<RuleView>) -> Seq<Seq<char>>
    decreases rules.len(),
{
    if rules.len() == 0 {
        Seq::empty()
    } else {
        let before = unfit_log(path, rules.drop_last());
        let rule = rules.last();
        match first_fault(rule) {
            None => before,
            Some(fault) => before.push(
                "[RULES ERROR] Invalid rule in "@ + path + ": "@ + fault_message(fault, rule.id),
            ),
        }
    }
}

/// The rules that a file yields.
pub open spec fn file_rules(file: FileView) -> Seq<RuleView> {
    match file.contents {
        ContentsView::Parsed { rules } => fit_rules(rules),
        _ => Seq::empty(),
    }
}

/// What the log says of a file. There is one line for each error.
pub open spec fn file_log(file: FileView) -> Seq<Seq<char>> {
    match file.contents {
        ContentsView::Unreadable { error } => seq![
            "[RULES ERROR] Failed reading "@ + file.path + ": "@ + error,
        ],
        ContentsView::Malformed { error } => seq![
            "[RULES ERROR] Invalid JSON "@ + file.path + ": "@ + error,
        ],
        ContentsView::Parsed { rules } => unfit_log(file.path, rules),
    }
}

/// The rules that files yield, file by file.
pub open spec fn files_rules(files: Seq<FileView>) -> Seq<RuleView>
    decreases files.len(),
{
    if files.len() == 0 {
        Seq::empty()
    } else {
        files_rules(files.drop_last()) + file_rules(files.last())
    }
}

/// What the log says of files, file by file.
pub open spec fn files_log(files: Seq<FileView>) -> Seq<Seq<char>>
    decreases files.len(),
{
    if files.len() == 0 {
        Seq::empty()
    } else {
        files_log(files.drop_last()) + file_log(files.last())
    }
}

/// The rule files among files.
pub open spec fn rule_files(files: Seq<FileView>) -> Seq<FileView> {
    files.filter(|file: FileView| is_rule_name(file.name))
}

/// The rules that a directory yields, file by file in the order of their names.
pub open spec fn directory_rules(listing: ListingView) -> Seq<RuleView> {
    match listing {
        ListingView::Files { files } => files_rules(in_name_order(rule_files(files))),
        _ => Seq::empty(),
    }
}

/// How many rule files a directory holds.
pub open spec fn directory_files(listing: ListingView) -> nat {
    match listing {
        ListingView::Files { files } => rule_files(files).len(),
        _ => 0,
    }
}

/// What the log says of a directory, file by file in the order of their names. There
/// is one line for each error.
pub open spec fn directory_log(path: Seq<char>, listing: ListingView) -> Seq<Seq<char>> {
    match listing {
        ListingView::Missing => Seq::empty(),
        ListingView::Unreadable { error } => seq![
            "[RULES ERROR] Failed to read "@ + path + ": "@ + error,
        ],
        ListingView::Files { files } => files_log(in_name_order(rule_files(files))),
    }
}

/// A count as a machine number holds it: a count beyond the greatest number stays
/// at that number.
pub open spec fn counted(n: nat) -> nat {
    if n <= usize::MAX {
        n
    } else {
        usize::MAX as nat
    }
}

fn complaint(start: &str, path: &str, error: &str) -> (r: String)
    ensures
        r@ == start@ + path@ + ": "@ + error@,
{
    start.to_owned().concat(path).concat(": ").concat(error)
}

fn load_file(result: &mut RuleLoadResult, file: RuleFile) -> (log: Log)
    ensures
        rule_views(final(result).rules@) == rule_views(old(result).rules@) + file_rules(file@),
        final(result).json_files_found == old(result).json_files_found,
        final(result).parse_errors == counted(old(result).parse_errors as nat + log@.len()),
        log@ == file_log(file@),
{
    let mut log: Log = Log::new();
    let path: String = file.path;
    match file.contents {
        FileContents::Unreadable { error } => {
            log.note(complaint("[RULES ERROR] Failed reading ", path.as_str(), error.as_str()));
            result.parse_errors = result.parse_errors.saturating_add(1);
            assert(rule_views(result.rules@) == rule_views(old(result).rules@) + file_rules(file@));
        },
        FileContents::Malformed { error } => {
            log.note(complaint("[RULES ERROR] Invalid JSON ", path.as_str(), error.as_str()));
            result.parse_errors = result.parse_errors.saturating_add(1);
            assert(rule_views(result.rules@) == rule_views(old(result).rules@) + file_rules(file@));
        },
        FileContents::Parsed { rules } => {
            let ghost all = rule_views(rules@);
            let ghost kept = rule_views(result.rules@);
            proof {
                reveal(Seq::filter);
                assert(fit_rules(all.take(0)) == Seq::<RuleView>::empty());
                assert(kept + fit_rules(all.take(0)) == kept);
            }
            for rule in it: rules
                invariant
                    it.seq() == rules@,
                    all == rule_views(rules@),
                    rule_views(result.rules@) == kept + fit_rules(all.take(it.index() as int)),
                    result.json_files_found == old(result).json_files_found,
                    result.parse_errors == counted(old(result).parse_errors as nat + log@.len()),
                    log@ == unfit_log(path@, all.take(it.index() as int)),
            {
                proof {
                    reveal(Seq::filter);
                    let next = all.take(it.index() + 1);
                    assert(next.drop_last() == all.take(it.index() as int));
                    assert(next.last() == rule@);
                    no_fault_means_valid(rule@);
                }
                let ghost before = result.rules@;
                match validate_rule(&rule) {
                    Ok(()) => {
                        result.rules.push(rule);
                        proof {
                            assert(rule_views(result.rules@) == rule_views(before).push(rule@));
                            assert(rule_views(result.rules@) == kept + fit_rules(
                                all.take(it.index() + 1),
                            ));
                        }
                    },
                    Err(error) => {
                        log.note(
                            complaint(
                                "[RULES ERROR] Invalid rule in ",
                                path.as_str(),
                                error.as_str(),
                            ),
                        );
                        result.parse_errors = result.parse_errors.saturating_add(1);
                    },
                }
            }
            assert(all.take(all.len() as int) == all);
        },
    }
    log
}

/// Keeps the rule files among files.
fn select_rule_files(files: Vec<RuleFile>) -> (r: Vec<RuleFile>)
    ensures
        file_views(r@) == rule_files(file_views(files@)),
{
    let ghost all = file_views(files@);
    let mut kept: Vec<RuleFile> = Vec::new();
    proof {
        reveal(Seq::filter);
        assert(file_views(kept@) == rule_files(all.take(0)));
    }
    for file in it: files
        invariant
            it.seq() == files@,
            all == file_views(files@),
            file_views(kept@) == rule_files(all.take(it.index() as int)),
    {
        proof {
            reveal(Seq::filter);
            let next = all.take(it.index() + 1);
            assert(next.drop_last() == all.take(it.index() as int));
            assert(next.last() == file@);
        }
        let ghost before = kept@;
        if is_rule_file_name(&file.name) {
            kept.push(file);
            assert(file_views(kept@) == file_views(before).push(file@));
        }
    }
    assert(all.take(all.len() as int) == all);
    kept
}

/// Gathers the rules of a directory, in the order of the names of its rule files. Files
/// that cannot be used and rules that are not fit for use are counted and logged, and
/// the others are still gathered.
pub fn load_rules_from_directory(path: &str, listing: DirectoryListing) -> (r: (
    RuleLoadResult,
    Log,
))
    ensures
        rule_views(r.0.rules@) == directory_rules(listing@),
        r.0.json_files_found == directory_files(listing@),
        r.0.parse_errors == counted(directory_log(path@, listing@).len()),
        r.1@ == directory_log(path@, listing@),
        r.1@.len() <= usize::MAX ==> r.0.parse_errors == r.1@.len(),
{
    let mut result: RuleLoadResult = empty_rule_load_result();
    let mut log: Log = Log::new();
    match listing {
        DirectoryListing::Missing => {},
        DirectoryListing::Unreadable { error } => {
            log.note(complaint("[RULES ERROR] Failed to read ", path, error.as_str()));
            result.parse_errors = 1;
        },
        DirectoryListing::Files { files } => {
            let files: Vec<RuleFile> = order_files(select_rule_files(files));
            let ghost all = file_views(files@);
            assert(files_rules(all.take(0)) == Seq::<RuleView>::empty());
            assert(files_log(all.take(0)) == Seq::<Seq<char>>::empty());
            let count: usize = files.len();
            for file in it: files
                invariant
                    it.seq() == files@,
                    count == files@.len(),
                    all == file_views(files@),
                    rule_views(result.rules@) == files_rules(all.take(it.index() as int)),
                    result.json_files_found == it.index(),
                    result.parse_errors == counted(log@.len()),
                    log@ == files_log(all.take(it.index() as int)),
            {
                proof {
                    let next = all.take(it.index() + 1);
                    assert(next.drop_last() == all.take(it.index() as int));
                    assert(next.last() == file@);
                }
                result.json_files_found = result.json_files_found + 1;
                let file_log: Log = load_file(&mut result, file);
                log.extend(file_log);
            }
            assert(all.take(all.len() as int) == all);
        },
    }
    (result, log)
}

/// In which order the files of a directory are listed makes no difference, to the
/// rules, to the count of files or to the log. No two files of a directory have the same name.
pub proof fn listing_order_makes_no_difference(
    path: Seq<char>,
    a: Seq<FileView>,
    b: Seq<FileView>,
)
    requires
        a.to_multiset() == b.to_multiset(),
        distinct_names(a),
    ensures
        directory_rules(ListingView::Files { files: a }) == directory_rules(
            ListingView::Files { files: b },
        ),
        directory_files(ListingView::Files { files: a }) == directory_files(
            ListingView::Files { files: b },
        ),
        directory_log(path, ListingView::Files { files: a }) == directory_log(
            path,
            ListingView::Files { files: b },
        ),
{
    broadcast use group_to_multiset_ensures;

    lemma_rule_files(a);
    lemma_rule_files(b);
    name_order_is_determined(rule_files(a), rule_files(b));
    assert(rule_files(a).len() == rule_files(a).to_multiset().len());
    assert(rule_files(b).len() == rule_files(b).to_multiset().len());
}

proof fn lemma_rule_files(files: Seq<FileView>)
    ensures
        rule_files(files).to_multiset() == files.to_multiset().filter(
            |file: FileView| is_rule_name(file.name),
        ),
        forall|i: int|
            0 <= i < rule_files(files).len() ==> files.contains(#[trigger] rule_files(files)[i]),
        distinct_names(files) ==> distinct_names(rule_files(files)),
    decreases files.len(),
{
    broadcast use group_to_multiset_ensures;
    broadcast use vstd::multiset::group_multiset_axioms;

    reveal(Seq::filter);
    let chosen = |file: FileView| is_rule_name(file.name);
    let kept = rule_files(files);
    if files.len() == 0 {
        assert(kept.to_multiset() =~= files.to_multiset().filter(chosen));
    } else {
        let rest = files.drop_last();
        let last = files.last();
        let front = rule_files(rest);
        lemma_rule_files(rest);
        assert(files == rest.push(last));
        assert(files[files.len() - 1] == last);
        assert(kept.to_multiset() =~= files.to_multiset().filter(chosen));
        assert forall|i: int| 0 <= i < kept.len() implies files.contains(#[trigger] kept[i]) by {
            if i < front.len() {
                assert(rest.contains(front[i]));
                let k = choose|k: int| 0 <= k < rest.len() && rest[k] == front[i];
                assert(files[k] == kept[i]);
            }
        }
        if distinct_names(files) {
            assert forall|i: int, j: int| 0 <= i < j < rest.len() implies (#[trigger] rest[i]).name
                != (#[trigger] rest[j]).name by {
                assert(files[i].name != files[j].name);
            }
            assert forall|i: int, j: int| 0 <= i < j < kept.len() implies (#[trigger] kept[i]).name
                != (#[trigger] kept[j]).name by {
                if j < front.len() {
                    assert(front[i].name != front[j].name);
                } else {
                    assert(rest.contains(front[i]));
                    let k = choose|k: int| 0 <= k < rest.len() && rest[k] == front[i];
                    assert(files[k].name != files[files.len() - 1].name);
                }
            }
        }
    }
}

/// Files that are not rule files make no difference, wherever they stand in a
/// directory.
pub proof fn other_files_make_no_difference(
    path: Seq<char>,
    front: Seq<FileView>,
    other: FileView,
    back: Seq<FileView>,
)
    requires
        !is_rule_name(other.name),
    ensures
        ({
            let with = ListingView::Files { files: front.push(other) + back };
            let without = ListingView::Files { files: front + back };
            &&& directory_rules(with) == directory_rules(without)
            &&& directory_files(with) == directory_files(without)
            &&& directory_log(path, with) == directory_log(path, without)
        }),
{
    reveal(Seq::filter);
    let chosen = |file: FileView| is_rule_name(file.name);
    Seq::filter_distributes_over_add(front.push(other), back, chosen);
    Seq::filter_distributes_over_add(front, back, chosen);
    assert(front.push(other).drop_last() == front);
}

/// Each rule of a file is either kept or named in the log.
pub proof fn each_rule_is_kept_or_logged(path: Seq<char>, rules: Seq<RuleView>)
    ensures
        fit_rules(rules).len() + unfit_log(path, rules).len() == rules.len(),
    decreases rules.len(),
{
    reveal(Seq::filter);
    if rules.len() > 0 {
        each_rule_is_kept_or_logged(path, rules.drop_last());
        no_fault_means_valid(rules.last());
    }
}

proof fn lemma_fit_rules_are_valid(rules: Seq<RuleView>)
    ensures
        forall|i: int|
            0 <= i < fit_rules(rules).len() ==> valid_rule(#[trigger] fit_rules(rules)[i]),
    decreases rules.len(),
{
    reveal(Seq::filter);
    if rules.len() > 0 {
        lemma_fit_rules_are_valid(rules.drop_last());
    }
}

proof fn lemma_files_rules_are_valid(files: Seq<FileView>)
    ensures
        forall|i: int|
            0 <= i < files_rules(files).len() ==> valid_rule(#[trigger] files_rules(files)[i]),
    decreases files.len(),
{
    if files.len() > 0 {
        lemma_files_rules_are_valid(files.drop_last());
        match files.last().contents {
            ContentsView::Parsed { rules } => lemma_fit_rules_are_valid(rules),
            _ => {},
        }
        let front = files_rules(files.drop_last());
        let back = file_rules(files.last());
        assert forall|i: int| 0 <= i < files_rules(files).len() implies valid_rule(
            #[trigger] files_rules(files)[i],
        ) by {
            if i < front.len() {
                assert(files_rules(files)[i] == front[i]);
            } else {
                assert(files_rules(files)[i] == back[i - front.len()]);
            }
        }
    }
}

/// A directory yields no rule that is not fit for use.
pub proof fn directory_rules_are_valid(listing: ListingView)
    ensures
        forall|i: int|
            0 <= i < directory_rules(listing).len() ==> valid_rule(
                #[trigger] directory_rules(listing)[i],
            ),
{
    match listing {
        ListingView::Files { files } => lemma_files_rules_are_valid(
            in_name_order(rule_files(files)),
        ),
        _ => {},
    }
}

/// The names of rule files are those that end with `.json` and hold something before
/// that.
pub proof fn rule_files_are_told_by_their_end(front: Seq<u8>, name: Seq<u8>)
    ensures
        is_rule_name(front + seq![0x2eu8, 0x6au8, 0x73u8, 0x6fu8, 0x6eu8]) <==> front.len() > 0,
        is_rule_name(name) ==> name == name.take(name.len() - 5) + seq![
            0x2eu8,
            0x6au8,
            0x73u8,
            0x6fu8,
            0x6eu8,
        ] && name.len() > 5,
{
    let end = seq![0x2eu8, 0x6au8, 0x73u8, 0x6fu8, 0x6eu8];
    let whole = front + end;
    assert(end == json_suffix());
    assert(whole.skip(whole.len() - 5) == end);
    if is_rule_name(name) {
        assert(name == name.take(name.len() - 5) + name.skip(name.len() - 5));
    }
}

/// A directory that is missing or cannot be read yields nothing. Only the latter is
/// complained of.
pub proof fn without_files_a_directory_yields_nothing(path: Seq<char>, error: Seq<char>)
    ensures
        ({
            let missing = ListingView::Missing;
            let unreadable = ListingView::Unreadable { error };
            let bare = ListingView::Files { files: Seq::empty() };
            &&& directory_rules(missing).len() == 0
            &&& directory_rules(unreadable).len() == 0
            &&& directory_rules(bare).len() == 0
            &&& directory_files(missing) == 0
            &&& directory_files(unreadable) == 0
            &&& directory_files(bare) == 0
            &&& directory_log(path, missing).len() == 0
            &&& directory_log(path, unreadable) == seq![
                "[RULES ERROR] Failed to read "@ + path + ": "@ + error,
            ]
            &&& directory_log(path, bare).len() == 0
        }),
{
    reveal(Seq::filter);
}

/// A file whose name comes before none of the others adds what it yields alone behind
/// what they yield, and so does it with the log and with the count of rule files.
pub proof fn directories_grow_file_by_file(
    path: Seq<char>,
    files: Seq<FileView>,
    file: FileView,
)
    requires
        forall|i: int|
            0 <= i < files.len() ==> !name_precedes(file.name, (#[trigger] files[i]).name),
    ensures
        ({
            let before = ListingView::Files { files };
            let alone = ListingView::Files { files: seq![file] };
            let after = ListingView::Files { files: files.push(file) };
            &&& directory_rules(after) == directory_rules(before) + directory_rules(alone)
            &&& directory_files(after) == directory_files(before) + directory_files(alone)
            &&& directory_log(path, after) == directory_log(path, before) + directory_log(
                path,
                alone,
            )
        }),
{
    reveal(Seq::filter);
    let picked = rule_files(files);
    assert(files.push(file).drop_last() == files);
    lemma_one_file(path, file);
    lemma_rule_files(files);
    if is_rule_name(file.name) {
        assert forall|i: int| 0 <= i < picked.len() implies !name_precedes(
            file.name,
            (#[trigger] picked[i]).name,
        ) by {
            assert(files.contains(picked[i]));
            let k = choose|k: int| 0 <= k < files.len() && files[k] == picked[i];
            assert(!name_precedes(file.name, files[k].name));
        }
        the_last_name_stands_last(picked, file);
        let ordered = in_name_order(picked);
        assert(ordered.push(file).drop_last() == ordered);
    }
}

/// What a directory with one file yields. A file that is not a rule file is passed over.
/// A rule file counts as one, whatever it holds. One that cannot be read, or whose text
/// rules cannot be read from, yields no rule and one line.
pub proof fn one_file_is_read_or_complained_of(path: Seq<char>, file: FileView)
    ensures
        ({
            let alone = ListingView::Files { files: seq![file] };
            &&& !is_rule_name(file.name) ==> directory_rules(alone).len() == 0 && directory_files(
                alone,
            ) == 0 && directory_log(path, alone).len() == 0
            &&& is_rule_name(file.name) ==> {
                &&& directory_files(alone) == 1
                &&& match file.contents {
                    ContentsView::Unreadable { error } => {
                        &&& directory_rules(alone).len() == 0
                        &&& directory_log(path, alone) == seq![
                            "[RULES ERROR] Failed reading "@ + file.path + ": "@ + error,
                        ]
                    },
                    ContentsView::Malformed { error } => {
                        &&& directory_rules(alone).len() == 0
                        &&& directory_log(path, alone) == seq![
                            "[RULES ERROR] Invalid JSON "@ + file.path + ": "@ + error,
                        ]
                    },
                    ContentsView::Parsed { rules } => rules.len() == 0 ==> directory_rules(
                        alone,
                    ).len() == 0 && directory_log(path, alone).len() == 0,
                }
            }
        }),
{
    lemma_one_file(path, file);
    reveal(Seq::filter);
}

proof fn lemma_one_file(path: Seq<char>, file: FileView)
    ensures
        ({
            let alone = ListingView::Files { files: seq![file] };
            let counts = is_rule_name(file.name);
            &&& directory_files(alone) == (if counts {
                1nat
            } else {
                0nat
            })
            &&& directory_rules(alone) == (if counts {
                file_rules(file)
            } else {
                Seq::empty()
            })
            &&& directory_log(path, alone) == (if counts {
                file_log(file)
            } else {
                Seq::empty()
            })
        }),
{
    reveal(Seq::filter);
    let none = Seq::<FileView>::empty();
    assert(seq![file].drop_last() == none);
    assert(rule_files(none) == none);
    assert(in_name_order(none) == none);
    assert(files_rules(none) == Seq::<RuleView>::empty());
    assert(files_log(none) == Seq::<Seq<char>>::empty());
    if is_rule_name(file.name) {
        assert(rule_files(seq![file]) == none.push(file));
        the_last_name_stands_last(none, file);
        assert(none.push(file).drop_last() == none);
        assert(files_rules(none.push(file)) == file_rules(file));
        assert(files_log(none.push(file)) == file_log(file));
    } else {
        assert(rule_files(seq![file]) == none);
    }
}

/// A rule that stands last in a rule file is added behind the others where it is fit for
/// use. Where it is not, the rules stay as they are, and a line with its first fault is
/// added behind the others.
pub proof fn files_grow_rule_by_rule(
    path: Seq<char>,
    name: Seq<u8>,
    file_path: Seq<char>,
    rules: Seq<RuleView>,
    rule: RuleView,
)
    requires
        is_rule_name(name),
    ensures
        ({
            let shorter = ListingView::Files {
                files: seq![
                    FileView { name, path: file_path, contents: ContentsView::Parsed { rules } },
                ],
            };
            let longer = ListingView::Files {
                files: seq![
                    FileView {
                        name,
                        path: file_path,
                        contents: ContentsView::Parsed { rules: rules.push(rule) },
                    },
                ],
            };
            if valid_rule(rule) {
                &&& directory_rules(longer) == directory_rules(shorter).push(rule)
                &&& directory_log(path, longer) == directory_log(path, shorter)
            } else {
                &&& first_fault(rule) is Some
                &&& directory_rules(longer) == directory_rules(shorter)
                &&& directory_log(path, longer) == directory_log(path, shorter).push(
                    "[RULES ERROR] Invalid rule in "@ + file_path + ": "@ + fault_message(
                        first_fault(rule)->0,
                        rule.id,
                    ),
                )
            }
        }),
{
    reveal(Seq::filter);
    no_fault_means_valid(rule);
    assert(rules.push(rule).drop_last() == rules);
    lemma_one_file(
        path,
        FileView { name, path: file_path, contents: ContentsView::Parsed { rules } },
    );
    lemma_one_file(
        path,
        FileView {
            name,
            path: file_path,
            contents: ContentsView::Parsed { rules: rules.push(rule) },
        },
    );
}

/// A listing is viewed as it is written: its files in their order, each with its name,
/// its path and what became of reading it.
pub proof fn a_listing_is_viewed_as_written(listing: DirectoryListing)
    ensures
        match listing {
            DirectoryListing::Missing => listing@ is Missing,
            DirectoryListing::Unreadable { error } => listing@ == (ListingView::Unreadable {
                error: error@,
            }),
            DirectoryListing::Files { files } => {
                &&& listing@ is Files
                &&& listing@->files.len() == files@.len()
                &&& forall|i: int|
                    0 <= i < files@.len() ==> {
                        let file = #[trigger] listing@->files[i];
                        &&& file.name == files@[i].name@
                        &&& file.path == files@[i].path@
                        &&& match files@[i].contents {
                            FileContents::Unreadable { error } => file.contents == (
                            ContentsView::Unreadable { error: error@ }),
                            FileContents::Malformed { error } => file.contents == (
                            ContentsView::Malformed { error: error@ }),
                            FileContents::Parsed { rules } => file.contents == (
                            ContentsView::Parsed { rules: rule_views(rules@) }),
                        }
                    }
            },
        },
{
}

} // verus!
