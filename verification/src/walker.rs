use vstd::prelude::*;
use crate::errors::PbError;
use crate::text::str_eq;

verus! {

/// Build and dependency directories that are pruned by name at any depth
/// below the root, whatever the ignore files say.
pub open spec fn skip_dir_names() -> Seq<Seq<char>> {
    seq![
        "DerivedData"@,
        "Pods"@,
        "target"@,
        "node_modules"@,
        "build"@,
        ".build"@,
        ".gradle"@,
        "Carthage"@,
        "buck-out"@,
        "__pycache__"@,
        ".idea"@,
        ".git"@,
    ]
}

/// Whether a directory name is on the deny list.
pub open spec fn is_skipped_name(name: Seq<char>) -> bool {
    skip_dir_names().contains(name)
}

/// Whether a directory of this name is pruned from the walk.
pub fn should_skip_dir(name: &str) -> (r: bool)
    ensures
        r == is_skipped_name(name@),
{
    let r = str_eq(name, "DerivedData") || str_eq(name, "Pods") || str_eq(name, "target")
        || str_eq(name, "node_modules") || str_eq(name, "build") || str_eq(name, ".build")
        || str_eq(name, ".gradle") || str_eq(name, "Carthage") || str_eq(name, "buck-out")
        || str_eq(name, "__pycache__") || str_eq(name, ".idea") || str_eq(name, ".git");
    proof {
        let names = skip_dir_names();
        if r {
            assert(names.contains(name@)) by {
                if name@ == "DerivedData"@ {
                    assert(names[0] == name@);
                } else if name@ == "Pods"@ {
                    assert(names[1] == name@);
                } else if name@ == "target"@ {
                    assert(names[2] == name@);
                } else if name@ == "node_modules"@ {
                    assert(names[3] == name@);
                } else if name@ == "build"@ {
                    assert(names[4] == name@);
                } else if name@ == ".build"@ {
                    assert(names[5] == name@);
                } else if name@ == ".gradle"@ {
                    assert(names[6] == name@);
                } else if name@ == "Carthage"@ {
                    assert(names[7] == name@);
                } else if name@ == "buck-out"@ {
                    assert(names[8] == name@);
                } else if name@ == "__pycache__"@ {
                    assert(names[9] == name@);
                } else {
                    assert(names[10] == name@ || names[11] == name@);
                }
            }
        } else {
            assert(!names.contains(name@)) by {
                assert forall|i: int| 0 <= i < names.len() implies names[i] != name@ by {
                    assert(names[0] == "DerivedData"@);
                    assert(names[1] == "Pods"@);
                    assert(names[2] == "target"@);
                    assert(names[3] == "node_modules"@);
                    assert(names[4] == "build"@);
                    assert(names[5] == ".build"@);
                    assert(names[6] == ".gradle"@);
                    assert(names[7] == "Carthage"@);
                    assert(names[8] == "buck-out"@);
                    assert(names[9] == "__pycache__"@);
                    assert(names[10] == ".idea"@);
                    assert(names[11] == ".git"@);
                }
            }
        }
    }
    r
}

/// The walk's entry filter: the root always passes, files always pass, and a
/// directory below the root is pruned exactly when its name — when it is
/// valid text at all — is on the deny list.
pub fn keep_entry(depth: usize, is_dir: bool, name: Option<&str>) -> (r: bool)
    ensures
        r == (depth == 0 || !is_dir || !(match name {
            Some(n) => is_skipped_name(n@),
            None => false,
        })),
{
    if depth == 0 {
        true
    } else if !is_dir {
        true
    } else {
        match name {
            Some(n) => !should_skip_dir(n),
            None => true,
        }
    }
}

/// Relies on `ignore::WalkBuilder` / `ignore::Walk`: a depth-first walk of
/// `root` with the crate's standard version-control ignore filters, with
/// `.gitignore` also honored outside git repositories, siblings in name
/// order, and entries pruned by `keep_entry`. Each yielded entry becomes its
/// path text and whether it is a regular file; a walk error becomes its
/// description. The yield depends on the filesystem, so nothing is promised
/// about it.
#[verifier::external_body]
fn run_walk(root: &String) -> (r: Vec<Result<(String, bool), String>>)
{
    let mut b = ignore::WalkBuilder::new(root.as_str());
    b.standard_filters(true).add_custom_ignore_filename(".gitignore");
    b.filter_entry(|e| keep_entry(
        e.depth(),
        e.file_type().map_or(false, |t| t.is_dir()),
        e.file_name().to_str(),
    ));
    b.sort_by_file_name(|a, b2| a.cmp(b2));
    b.build().map(|item| match item {
        Ok(e) => Ok((e.path().to_string_lossy().into_owned(),
            e.file_type().map_or(false, |t| t.is_file()))),
        Err(err) => Err(err.to_string()),
    }).collect()
}

/// What a walk's yield resolves to: the paths flagged as regular files, in
/// yield order, unless some entry carries an error — the first error aborts
/// the whole walk with no partial result.
pub open spec fn walked_files(entries: Seq<Result<(String, bool), String>>) -> Result<
    Seq<String>,
    String,
>
    decreases entries.len(),
{
    if entries.len() == 0 {
        Ok(Seq::<String>::empty())
    } else {
        match entries[0] {
            Err(e) => Err(e),
            Ok(pair) => match walked_files(entries.drop_first()) {
                Err(e) => Err(e),
                Ok(rest) => Ok(
                    if pair.1 {
                        seq![pair.0] + rest
                    } else {
                        rest
                    },
                ),
            },
        }
    }
}

/// Keep the regular files of a walk's yield, in order, aborting on the first
/// error, exactly as `walked_files` says.
pub fn file_entries(entries: Vec<Result<(String, bool), String>>) -> (r: Result<
    Vec<String>,
    String,
>)
    ensures
        match r {
            Ok(v) => (walked_files(entries@) matches Ok(fv) && v@ == fv),
            Err(e) => (walked_files(entries@) matches Err(fe) && e == fe),
        },
{
    let n = entries.len();
    let mut files: Vec<String> = Vec::new();
    let mut i: usize = 0;
    proof {
        assert(entries@.skip(0) =~= entries@);
        assert(Seq::<String>::empty() + walked_files(entries@)->Ok_0 =~= walked_files(
            entries@,
        )->Ok_0);
    }
    while i < n
        invariant
            n == entries@.len(),
            i <= n,
            walked_files(entries@) matches Ok(v) ==> (walked_files(entries@.skip(i as int))
                matches Ok(rest) && v == files@ + rest),
            walked_files(entries@) matches Err(e) ==> (walked_files(entries@.skip(i as int))
                matches Err(e2) && e2 == e),
        decreases n - i,
    {
        let ghost suffix = entries@.skip(i as int);
        proof {
            assert(suffix[0] == entries@[i as int]);
            assert(suffix.drop_first() =~= entries@.skip(i + 1));
        }
        match &entries[i] {
            Err(e) => {
                proof {
                    assert(walked_files(suffix) matches Err(fe) && fe == entries@[i as int]->Err_0);
                }
                return Err(e.clone());
            },
            Ok(pair) => {
                if pair.1 {
                    files.push(pair.0.clone());
                    proof {
                        if walked_files(entries@) is Ok {
                            let v = walked_files(entries@)->Ok_0;
                            let rest2 = walked_files(entries@.skip(i + 1))->Ok_0;
                            assert(walked_files(suffix)->Ok_0 =~= seq![entries@[i as int]->Ok_0.0]
                                + rest2);
                            assert(files@ + rest2 =~= v);
                        }
                    }
                } else {
                    proof {
                        if walked_files(entries@) is Ok {
                            assert(walked_files(suffix)->Ok_0 == walked_files(
                                entries@.skip(i + 1),
                            )->Ok_0);
                        }
                    }
                }
            },
        }
        i += 1;
    }
    proof {
        assert(entries@.skip(n as int) =~= Seq::<Result<(String, bool), String>>::empty());
        assert(walked_files(entries@.skip(n as int)) matches Ok(rest) && rest
            == Seq::<String>::empty());
        if walked_files(entries@) is Ok {
            assert(files@ + Seq::<String>::empty() =~= files@);
        }
    }
    Ok(files)
}

/// Expand one directory argument: run the ignore-aware walk and keep its
/// regular files in walk order. A walk failure surfaces as an I/O error
/// naming the directory argument.
pub fn collect_dir(dir: &String) -> (r: Result<Vec<String>, PbError>)
    ensures
        r matches Err(e) ==> (e matches PbError::Io { path, detail } && path@ == dir@),
{
    let entries = run_walk(dir);
    match file_entries(entries) {
        Ok(files) => Ok(files),
        Err(detail) => Err(PbError::Io { path: dir.clone(), detail }),
    }
}

} // verus!
