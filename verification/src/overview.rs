//! A plain listing of a retained tree with the destination of each node,
//! indented by depth.

use crate::paths::path_text;
use crate::structures::{
    file_models, lemma_directory_view, Directory, DirectoryModel, FileModel,
};
use vstd::prelude::*;
use vstd::string::*;

verus! {

/// `count` spaces.
pub open spec fn spaces(count: nat) -> Seq<char> {
    Seq::new(count, |i: int| ' ')
}

/// The two lines of a file: a bar, then its name and its destination, both
/// after `indentation`.
pub open spec fn file_overview(file: FileModel, indentation: Seq<char>) -> Seq<char> {
    indentation + "|\n"@ + indentation + "|-"@ + file.name + ": newpath "@ + path_text(
        file.dest_path,
    ) + " \n"@
}

/// The lines of the files, in order.
pub open spec fn files_overview(files: Seq<FileModel>, indentation: Seq<char>) -> Seq<char>
    decreases files.len(),
{
    if files.len() == 0 {
        Seq::empty()
    } else {
        files_overview(files.drop_last(), indentation) + file_overview(files.last(), indentation)
    }
}

/// The listing of a directory whose own line starts with `lead`: its name
/// and destination, then its files one space further in, then each of its
/// directories one space further in.
pub open spec fn overview_text(directory: DirectoryModel, lead: Seq<char>) -> Seq<char>
    decreases directory, directory.sub_directories.len() + 1,
{
    lead + "|- [["@ + directory.name + "]] :newpath "@ + path_text(directory.dest_path) + "\n"@
        + files_overview(directory.files, lead + " "@) + overviews_below(
        directory,
        lead,
        directory.sub_directories.len() as int,
    )
}

/// The listings of the first `count` directories of `directory`.
pub open spec fn overviews_below(directory: DirectoryModel, lead: Seq<char>, count: int) -> Seq<
    char,
>
    decreases directory, count,
{
    if 0 < count <= directory.sub_directories.len() {
        overviews_below(directory, lead, count - 1) + overview_text(
            directory.sub_directories[count - 1],
            lead + " "@,
        )
    } else {
        Seq::empty()
    }
}

/// Appends to `out` the listing of `directory` with the lead `lead`.
fn overview_into(directory: &Directory, lead: &String, out: &mut String)
    ensures
        final(out)@ == old(out)@ + overview_text(directory@, lead@),
    decreases directory,
{
    proof {
        lemma_directory_view(*directory);
    }
    let mut indentation = lead.clone();
    indentation.append(" ");
    out.append(lead.as_str());
    out.append("|- [[");
    out.append(directory.name.as_str());
    out.append("]] :newpath ");
    out.append(directory.dest_path.display().as_str());
    out.append("\n");
    let ghost head = out@;
    let ghost files = directory@.files;
    let mut i: usize = 0;
    while i < directory.files.len()
        invariant
            i <= directory.files.len(),
            files == file_models(directory.files@),
            indentation@ == lead@ + " "@,
            out@ == head + files_overview(files.take(i as int), indentation@),
        decreases directory.files.len() - i,
    {
        let file = &directory.files[i];
        assert(files.take(i + 1).drop_last() =~= files.take(i as int));
        out.append(indentation.as_str());
        out.append("|\n");
        out.append(indentation.as_str());
        out.append("|-");
        out.append(file.name.as_str());
        out.append(": newpath ");
        out.append(file.dest_path.display().as_str());
        out.append(" \n");
        i = i + 1;
    }
    assert(files.take(i as int) =~= files);
    let ghost own = out@;
    let mut j: usize = 0;
    while j < directory.sub_directories.len()
        invariant
            j <= directory.sub_directories.len(),
            directory@.sub_directories.len() == directory.sub_directories.len(),
            forall|k: int|
                0 <= k < directory.sub_directories.len() ==> directory@.sub_directories[k]
                    == directory.sub_directories[k]@,
            indentation@ == lead@ + " "@,
            out@ == own + overviews_below(directory@, lead@, j as int),
        decreases directory.sub_directories.len() - j,
    {
        overview_into(&directory.sub_directories[j], &indentation, out);
        j = j + 1;
    }
}

/// The listing of the tree under `given_directory`, whose own line is
/// indented by one space less than `indent`: see [`overview_text`].
pub fn directory_overview(given_directory: &Directory, indent: usize) -> (listing: String)
    requires
        indent >= 1,
    ensures
        listing@ == overview_text(given_directory@, spaces((indent - 1) as nat)),
{
    proof {
        reveal_strlit(" ");
    }
    let mut lead = String::new();
    let mut i: usize = 1;
    while i < indent
        invariant
            1 <= i <= indent,
            " "@ == seq![' '],
            lead@ == spaces((i - 1) as nat),
        decreases indent - i,
    {
        lead.append(" ");
        i = i + 1;
    }
    let mut listing = String::new();
    overview_into(given_directory, &lead, &mut listing);
    listing
}

} // verus!
