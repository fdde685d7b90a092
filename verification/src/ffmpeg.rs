//! Where the program is looked for that turns a TS file into an MP4 file, and what that
//! file is called.

use crate::lists::{each, first_where, lemma_first_is, maybe};
use crate::text::{chars_of, finishes_with, is_blank, lower, to_lower, trimmed};
use vstd::prelude::*;

verus! {

/// A place where the program may be.
#[derive(Debug)]
pub enum Tool {
    /// The file at a path.
    File(String),
    /// The program of a name, wherever the system finds it.
    OnPath(String),
}

#[verifier::ext_equal]
pub enum ToolView {
    File(Seq<char>),
    OnPath(Seq<char>),
}

impl View for Tool {
    type V = ToolView;

    open spec fn view(&self) -> ToolView {
        match self {
            Tool::File(path) => ToolView::File(path@),
            Tool::OnPath(name) => ToolView::OnPath(name@),
        }
    }
}

/// The path of something in a directory.
pub open spec fn path_in(dir: Seq<char>, separator: char, name: Seq<char>) -> Seq<char> {
    dir.push(separator) + name
}

/// The path of the program as it is kept with a project or a package.
pub open spec fn third_party(dir: Seq<char>, separator: char) -> Seq<char> {
    path_in(
        path_in(path_in(dir, separator, "third_party"@), separator, "ffmpeg"@),
        separator,
        "ffmpeg.exe"@,
    )
}

/// A list with one more file, if there is one.
pub open spec fn with_file(list: Seq<ToolView>, path: Option<Seq<char>>) -> Seq<ToolView> {
    match path {
        Some(path) => list.push(ToolView::File(path)),
        None => list,
    }
}

/// A text unless it is blank.
pub open spec fn unless_blank(text: Option<Seq<char>>) -> Option<Seq<char>> {
    match text {
        Some(text) if trimmed(text).len() > 0 => Some(text),
        _ => None,
    }
}

/// The places where the program is looked for, in order: the one that the environment
/// names, in the package, in its `bin` directory, among what the project or the package
/// brings along, and wherever the system finds programs.
pub open spec fn places(
    named: Option<Seq<char>>,
    package: Option<Seq<char>>,
    project: Option<Seq<char>>,
    separator: char,
) -> Seq<ToolView> {
    let first = with_file(Seq::empty(), unless_blank(named));
    let packaged = match package {
        Some(dir) => first.push(ToolView::File(path_in(dir, separator, "ffmpeg.exe"@))).push(
            ToolView::File(
                path_in(path_in(dir, separator, "bin"@), separator, "ffmpeg.exe"@),
            ),
        ),
        None => first,
    };
    let of_project = with_file(
        packaged,
        match project {
            Some(dir) => Some(third_party(dir, separator)),
            None => None,
        },
    );
    let of_package = with_file(
        of_project,
        match package {
            Some(dir) => Some(third_party(dir, separator)),
            None => None,
        },
    );
    of_package.push(ToolView::OnPath("ffmpeg"@))
}

fn join_path(dir: &str, separator: char, name: &str) -> (r: String)
    ensures
        r@ == path_in(dir@, separator, name@),
{
    let mut path = dir.to_string();
    path.push(separator);
    path.append(name);
    path
}

fn third_party_path(dir: &str, separator: char) -> (r: String)
    ensures
        r@ == third_party(dir@, separator),
{
    let outer = join_path(dir, separator, "third_party");
    let inner = join_path(outer.as_str(), separator, "ffmpeg");
    join_path(inner.as_str(), separator, "ffmpeg.exe")
}

fn push_tool(list: &mut Vec<Tool>, tool: Tool)
    ensures
        each(final(list)@) == each(old(list)@).push(tool@),
{
    let ghost was = each(list@);
    list.push(tool);
    proof {
        assert(each(list@) =~= was.push(tool@));
    }
}

/// The places where the program is looked for, in order.
pub fn ffmpeg_candidates(
    named: Option<&str>,
    package: Option<&str>,
    project: Option<&str>,
    separator: char,
) -> (r: Vec<Tool>)
    ensures
        each(r@) == places(maybe(named), maybe(package), maybe(project), separator),
{
    let mut list: Vec<Tool> = Vec::new();
    proof {
        assert(each(list@) =~= Seq::<ToolView>::empty());
    }
    if let Some(path) = named {
        if !is_blank(path) {
            push_tool(&mut list, Tool::File(path.to_string()));
        }
    }
    if let Some(dir) = package {
        push_tool(&mut list, Tool::File(join_path(dir, separator, "ffmpeg.exe")));
        let bin = join_path(dir, separator, "bin");
        push_tool(&mut list, Tool::File(join_path(bin.as_str(), separator, "ffmpeg.exe")));
    }
    if let Some(dir) = project {
        push_tool(&mut list, Tool::File(third_party_path(dir, separator)));
    }
    if let Some(dir) = package {
        push_tool(&mut list, Tool::File(third_party_path(dir, separator)));
    }
    push_tool(&mut list, Tool::OnPath("ffmpeg".to_string()));
    list
}

/// How a program is called.
pub open spec fn program_of(tool: ToolView) -> Seq<char> {
    match tool {
        ToolView::File(path) => path,
        ToolView::OnPath(name) => name,
    }
}

/// That something is so.
pub open spec fn is_so() -> spec_fn(bool) -> bool {
    |found: bool| found
}

/// The program at the first place where there is one.
pub open spec fn first_found(tools: Seq<ToolView>, found: Seq<bool>) -> Option<Seq<char>> {
    let at = first_where(found, is_so());
    if at < found.len() && at < tools.len() {
        Some(program_of(tools[at]))
    } else {
        None
    }
}

/// The program at the first place where there is one, given at which places there is one.
pub fn choose_tool(tools: &Vec<Tool>, found: &Vec<bool>) -> (r: Option<String>)
    ensures
        maybe(r) == first_found(each(tools@), found@),
{
    let mut i: usize = 0;
    while i < found.len()
        invariant
            i <= found.len(),
            forall|k: int| 0 <= k < i ==> !is_so()(#[trigger] found@[k]),
        decreases found.len() - i,
    {
        if found[i] {
            proof {
                lemma_first_is(found@, is_so(), i as int);
            }
            if i < tools.len() {
                assert(each(tools@)[i as int] == tools@[i as int]@);
                return match &tools[i] {
                    Tool::File(path) => Some(path.clone()),
                    Tool::OnPath(name) => Some(name.clone()),
                };
            }
            return None;
        }
        i = i + 1;
    }
    proof {
        lemma_first_is(found@, is_so(), i as int);
    }
    None
}

/// The name of the MP4 file that a TS file is turned into.
pub open spec fn remuxed_name(name: Seq<char>) -> Seq<char> {
    if ".ts"@.is_suffix_of(lower(name)) {
        name.take(name.len() - 3) + ".mp4"@
    } else {
        name + ".mp4"@
    }
}

/// The name of the MP4 file that a TS file is turned into.
pub fn remuxed_file_name(name: &str) -> (r: String)
    ensures
        r@ == remuxed_name(name@),
{
    proof {
        reveal_strlit(".ts");
    }
    if finishes_with(to_lower(name).as_str(), ".ts") {
        let chars = chars_of(name);
        let mut out = name.substring_char(0, chars.len() - 3).to_string();
        proof {
            assert(out@ =~= name@.take(name@.len() - 3));
        }
        out.append(".mp4");
        out
    } else {
        let mut out = name.to_string();
        out.append(".mp4");
        out
    }
}

/// The file that the environment names is looked for first, and what the system finds last.
pub proof fn law_named_program_comes_first(
    named: Seq<char>,
    package: Option<Seq<char>>,
    project: Option<Seq<char>>,
    separator: char,
)
    requires
        trimmed(named).len() > 0,
    ensures
        places(Some(named), package, project, separator)[0] == ToolView::File(named),
        places(Some(named), package, project, separator).last() == ToolView::OnPath("ffmpeg"@),
{
}

/// No program is taken from a later place while there is one at an earlier.
pub proof fn law_first_place_wins(tools: Seq<ToolView>, found: Seq<bool>, at: int)
    requires
        tools.len() == found.len(),
        0 <= at < found.len(),
        found[at],
        forall|k: int| 0 <= k < at ==> !#[trigger] found[k],
    ensures
        first_found(tools, found) == Some(program_of(tools[at])),
{
    assert forall|k: int| 0 <= k < at implies !is_so()(#[trigger] found[k]) by {}
    lemma_first_is(found, is_so(), at);
}

/// The MP4 file is another than the TS file, and ends with `.mp4`.
pub proof fn law_remuxed_file_is_another(name: Seq<char>)
    ensures
        ".mp4"@.is_suffix_of(remuxed_name(name)),
        remuxed_name(name) != name,
{
    reveal_strlit(".mp4");
    reveal_strlit(".ts");
    let r = remuxed_name(name);
    assert(r.subrange(r.len() - 4, r.len() as int) =~= ".mp4"@);
    if ".ts"@.is_suffix_of(lower(name)) {
        assert(r.len() == name.len() + 1);
    }
}

} // verus!
