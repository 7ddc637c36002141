//! Blocks and witnesses from the execution-spec test fixtures: where the
//! fixtures live, and which of the files found there are test cases.

use std::path::PathBuf;
use vstd::prelude::*;

use crate::text::chars_of;

verus! {

#[verifier::external_type_specification]
#[verifier::external_body]
pub struct ExPathBuf(PathBuf);

/// The fixtures directory below the workspace directory.
pub open spec fn fixtures_path(workspace_dir: Seq<char>) -> Seq<char> {
    workspace_dir + "/zkevm-fixtures/fixtures/blockchain_tests"@
}

/// Whatever the workspace directory, the fixtures directory is that
/// directory followed by one and the same suffix,
/// `/zkevm-fixtures/fixtures/blockchain_tests`: it starts with the workspace
/// directory, and what follows it does not depend on the workspace.
pub proof fn lemma_fixtures_path_suffix(w: Seq<char>, other: Seq<char>)
    ensures
        fixtures_path(w) == w + "/zkevm-fixtures/fixtures/blockchain_tests"@,
        fixtures_path(w).take(w.len() as int) == w,
        fixtures_path(w).skip(w.len() as int) == "/zkevm-fixtures/fixtures/blockchain_tests"@,
        fixtures_path(w).skip(w.len() as int) == fixtures_path(other).skip(other.len() as int),
{
    assert(fixtures_path(w).take(w.len() as int) =~= w);
    assert(fixtures_path(w).skip(w.len() as int) =~= "/zkevm-fixtures/fixtures/blockchain_tests"@);
    assert(fixtures_path(other).skip(other.len() as int) =~= "/zkevm-fixtures/fixtures/blockchain_tests"@);
}

/// The default directory of the blockchain test fixtures, below `workspace_dir`.
pub fn path_to_zkevm_fixtures(workspace_dir: &str) -> (p: String)
    ensures
        p@ == fixtures_path(workspace_dir@),
        p@ == workspace_dir@ + "/zkevm-fixtures/fixtures/blockchain_tests"@,
{
    let mut p = workspace_dir.to_owned();
    p.append("/zkevm-fixtures/fixtures/blockchain_tests");
    p
}

/// Calls `PathBuf::clone`, which copies the path.
#[verifier::external_body]
fn clone_path(p: &PathBuf) -> (c: PathBuf)
    ensures
        c == *p,
{
    p.clone()
}

/// Witness generator for the execution-spec test fixtures in a directory.
#[derive(Debug)]
pub struct ExecSpecTestBlocksAndWitnesses {
    directory_path: PathBuf,
}

impl Clone for ExecSpecTestBlocksAndWitnesses {
    fn clone(&self) -> (c: Self)
        ensures
            c.directory() == self.directory(),
    {
        ExecSpecTestBlocksAndWitnesses { directory_path: clone_path(&self.directory_path) }
    }
}

impl ExecSpecTestBlocksAndWitnesses {
    /// The directory the generator reads.
    pub closed spec fn directory(&self) -> PathBuf {
        self.directory_path
    }

    /// A generator for the test cases in `directory_path`.
    pub fn new(directory_path: PathBuf) -> (g: Self)
        ensures
            g.directory() == directory_path,
    {
        ExecSpecTestBlocksAndWitnesses { directory_path }
    }

    /// The directory the generator reads.
    pub fn directory_path(&self) -> (p: &PathBuf)
        ensures
            *p == self.directory(),
    {
        &self.directory_path
    }
}

/// A file name that ends with `extension`.
pub open spec fn has_extension(file_name: Seq<char>, extension: Seq<char>) -> bool {
    extension.is_suffix_of(file_name)
}

/// A file name has an extension exactly when it is some stem followed by
/// that extension.
pub proof fn lemma_has_extension(file_name: Seq<char>, extension: Seq<char>)
    ensures
        has_extension(file_name, extension) <==> exists|stem: Seq<char>| file_name == stem + extension,
{
    if has_extension(file_name, extension) {
        let stem = file_name.take(file_name.len() - extension.len());
        assert(file_name =~= stem + extension);
    }
    if exists|stem: Seq<char>| file_name == stem + extension {
        let stem = choose|stem: Seq<char>| file_name == stem + extension;
        assert(extension =~= file_name.subrange(
            (file_name.len() - extension.len()) as int,
            file_name.len() as int,
        ));
    }
}

/// Whether `file_name` ends with `extension`.
pub fn ends_with(file_name: &str, extension: &str) -> (b: bool)
    ensures
        b == has_extension(file_name@, extension@),
        b <==> extension@.len() <= file_name@.len() && file_name@.skip(
            file_name@.len() - extension@.len(),
        ) == extension@,
{
    proof {
        if extension@.len() <= file_name@.len() {
            assert(file_name@.skip(file_name@.len() - extension@.len()) =~= file_name@.subrange(
                file_name@.len() - extension@.len(),
                file_name@.len() as int,
            ));
        }
    }
    let name = chars_of(file_name);
    let ext = chars_of(extension);
    if ext.len() > name.len() {
        return false;
    }
    let n = name.len();
    let offset = n - ext.len();
    let mut i: usize = 0;
    while i < ext.len()
        invariant
            name@ == file_name@,
            ext@ == extension@,
            offset == name@.len() - ext@.len(),
            ext@.len() <= name@.len(),
            n == name@.len(),
            i <= ext@.len(),
            forall|j: int| 0 <= j < i ==> ext@[j] == name@[offset + j],
        decreases ext@.len() - i,
    {
        if ext[i] != name[offset + i] {
            return false;
        }
        i = i + 1;
    }
    true
}

/// The entry `e`, a (name, is a file) pair, is a file whose name ends with `extension`.
pub open spec fn is_file_with_extension(e: (String, bool), extension: Seq<char>) -> bool {
    e.1 && has_extension(e.0@, extension)
}

/// The positions, in order, of the entries that are files whose names end
/// with `extension`; each entry is a name and whether the entry is a file.
pub fn select_files_with_extension(entries: &Vec<(String, bool)>, extension: &str) -> (picked: Vec<usize>)
    ensures
        forall|k: int| 0 <= k < picked@.len() ==> #[trigger] picked@[k] < entries@.len()
            && is_file_with_extension(entries@[picked@[k] as int], extension@),
        forall|k: int, l: int| 0 <= k < l < picked@.len() ==> picked@[k] < picked@[l],
        forall|i: int|
            0 <= i < entries@.len() && is_file_with_extension(#[trigger] entries@[i], extension@)
                ==> picked@.contains(i as usize),
{
    let mut picked: Vec<usize> = Vec::new();
    let mut i: usize = 0;
    while i < entries.len()
        invariant
            i <= entries@.len(),
            forall|k: int| 0 <= k < picked@.len() ==> #[trigger] picked@[k] < i
                && is_file_with_extension(entries@[picked@[k] as int], extension@),
            forall|k: int, l: int| 0 <= k < l < picked@.len() ==> picked@[k] < picked@[l],
            forall|j: int|
                0 <= j < i && is_file_with_extension(#[trigger] entries@[j], extension@)
                    ==> picked@.contains(j as usize),
        decreases entries@.len() - i,
    {
        if entries[i].1 && ends_with(entries[i].0.as_str(), extension) {
            let ghost before = picked@;
            picked.push(i);
            assert forall|j: int|
                0 <= j < i && is_file_with_extension(#[trigger] entries@[j], extension@)
                    implies picked@.contains(j as usize) by {
                let k = choose|k: int| 0 <= k < before.len() && before[k] == j as usize;
                assert(picked@[k] == j as usize);
            }
            assert(picked@[picked@.len() - 1] == i);
        }
        i = i + 1;
    }
    picked
}

} // verus!
