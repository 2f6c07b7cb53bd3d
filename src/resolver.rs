use vstd::prelude::*;
use crate::config::{BlueprintsLibrary, BlueprintError, GltfFormat, format_extension};

verus! {

/// The index of the last `c` in `s`, or -1.
pub open spec fn last_index_of(s: Seq<char>, c: char) -> int
    decreases s.len(),
{
    if s.len() == 0 {
        -1
    } else if s.last() == c {
        s.len() - 1
    } else {
        last_index_of(s.drop_last(), c)
    }
}

/// The last component of a `/`-separated path.
pub open spec fn file_name(p: Seq<char>) -> Seq<char> {
    p.subrange(last_index_of(p, '/') + 1, p.len() as int)
}

/// The file name without its final extension; a name whose only dot leads keeps it.
pub open spec fn file_stem(p: Seq<char>) -> Seq<char> {
    let f = file_name(p);
    let d = last_index_of(f, '.');
    if d <= 0 {
        f
    } else {
        f.subrange(0, d)
    }
}

/// The path of blueprint `name` in a folder library.
pub open spec fn folder_path(root: Seq<char>, name: Seq<char>, format: GltfFormat) -> Seq<char> {
    root + seq!['/'] + name + seq!['.'] + format_extension(format)
}

/// The index of the first entry of `files` whose stem is `name`, if any.
pub open spec fn first_with_stem(files: Seq<String>, name: Seq<char>) -> Option<int>
    decreases files.len(),
{
    if files.len() == 0 {
        None
    } else {
        match first_with_stem(files.drop_last(), name) {
            Some(i) => Some(i),
            None => if file_stem(files.last()@) == name {
                Some(files.len() - 1)
            } else {
                None
            },
        }
    }
}

/// Every listed path fits the machine's string lengths.
pub open spec fn library_wf(library: BlueprintsLibrary) -> bool {
    library is Files ==> forall|i: int|
        0 <= i < library->Files_0@.len() ==> (#[trigger] library->Files_0@[i])@.len()
            < 0x7fff_ffff_ffff_ffff
}

/// The path that blueprint `name` resolves to, or `None` when it is unknown.
pub open spec fn resolved_path(
    library: BlueprintsLibrary,
    format: GltfFormat,
    name: Seq<char>,
    folder_files: Seq<String>,
) -> Option<Seq<char>> {
    match library {
        BlueprintsLibrary::Folder(root) => {
            let p = folder_path(root@, name, format);
            if exists|i: int| 0 <= i < folder_files.len() && #[trigger] folder_files[i]@ == p {
                Some(p)
            } else {
                None
            }
        },
        BlueprintsLibrary::Files(files) => match first_with_stem(files@, name) {
            Some(i) => Some(files@[i]@),
            None => None,
        },
    }
}

proof fn lemma_last_index_bounds(s: Seq<char>, c: char)
    ensures
        -1 <= last_index_of(s, c) < s.len(),
        last_index_of(s, c) >= 0 ==> s[last_index_of(s, c)] == c,
    decreases s.len(),
{
    if s.len() > 0 && s.last() != c {
        lemma_last_index_bounds(s.drop_last(), c);
    }
}

/// The index of the last `c` among the first `end` characters of `s`, or -1.
fn last_index_before(s: &str, c: char, end: usize) -> (r: i64)
    requires
        end <= s@.len(),
        s@.len() < 0x7fff_ffff_ffff_ffff,
    ensures
        r == last_index_of(s@.subrange(0, end as int), c),
{
    let mut k: usize = end;
    while k > 0
        invariant
            k <= end <= s@.len(),
            s@.len() < 0x7fff_ffff_ffff_ffff,
            last_index_of(s@.subrange(0, end as int), c) == last_index_of(s@.subrange(0, k as int), c),
        decreases k,
    {
        let ch = s.get_char(k - 1);
        assert(s@.subrange(0, k as int).last() == ch);
        if ch == c {
            return (k - 1) as i64;
        }
        assert(s@.subrange(0, k as int).drop_last() =~= s@.subrange(0, k - 1));
        k = k - 1;
    }
    -1
}

/// Whether the stem of path `p` is `name`.
pub fn stem_matches(p: &str, name: &str) -> (r: bool)
    requires
        p@.len() < 0x7fff_ffff_ffff_ffff,
    ensures
        r == (file_stem(p@) == name@),
{
    let len = p.unicode_len();
    proof {
        assert(p@.subrange(0, len as int) =~= p@);
        lemma_last_index_bounds(p@, '/');
    }
    let slash = last_index_before(p, '/', len);
    let start = (slash + 1) as usize;
    let ghost f = file_name(p@);
    let fname = p.substring_char(start, len);
    let flen = fname.unicode_len();
    proof {
        assert(fname@ == f);
        assert(fname@.subrange(0, flen as int) =~= fname@);
        lemma_last_index_bounds(f, '.');
    }
    let dot = last_index_before(fname, '.', flen);
    let stem = if dot <= 0 {
        fname
    } else {
        fname.substring_char(0, dot as usize)
    };
    assert(stem@ == file_stem(p@));
    let slen = stem.unicode_len();
    let nlen = name.unicode_len();
    if slen != nlen {
        return false;
    }
    let mut i: usize = 0;
    while i < slen
        invariant
            i <= slen,
            slen == stem@.len(),
            nlen == name@.len(),
            slen == nlen,
            stem@ == file_stem(p@),
            forall|j: int| 0 <= j < i ==> stem@[j] == name@[j],
        decreases slen - i,
    {
        if stem.get_char(i) != name.get_char(i) {
            return false;
        }
        i = i + 1;
    }
    assert(stem@ =~= name@);
    true
}

/// The library path of blueprint `name` in a folder library.
pub fn folder_blueprint_path(root: &String, name: &String, format: GltfFormat) -> (r: String)
    ensures
        r@ == folder_path(root@, name@, format),
{
    let mut p = root.clone();
    p.append("/");
    p.append(name.as_str());
    p.append(".");
    let ext = format.to_string();
    p.append(ext.as_str());
    proof {
        reveal_strlit("/");
        reveal_strlit(".");
    }
    p
}

/// Maps a blueprint name to the path of its asset: `{root}/{name}.{extension}` when it is
/// among the files found in a folder library, or the first listed file whose stem is the
/// name.
pub fn resolve_blueprint(
    library: &BlueprintsLibrary,
    format: GltfFormat,
    name: &String,
    folder_files: &Vec<String>,
) -> (r: Result<String, BlueprintError>)
    requires
        library_wf(*library),
    ensures
        match resolved_path(*library, format, name@, folder_files@) {
            Some(p) => r is Ok && r->Ok_0@ == p,
            None => r is Err && r->Err_0 == BlueprintError::UnknownBlueprint,
        },
{
    match library {
        BlueprintsLibrary::Folder(root) => {
            let p = folder_blueprint_path(root, name, format);
            let mut i: usize = 0;
            while i < folder_files.len()
                invariant
                    i <= folder_files@.len(),
                    *library == BlueprintsLibrary::Folder(*root),
                    p@ == folder_path(root@, name@, format),
                    forall|j: int| 0 <= j < i ==> (#[trigger] folder_files@[j])@ != p@,
                decreases folder_files@.len() - i,
            {
                if folder_files[i] == p {
                    assert(folder_files@[i as int]@ == p@);
                    return Ok(p);
                }
                i = i + 1;
            }
            Err(BlueprintError::UnknownBlueprint)
        },
        BlueprintsLibrary::Files(files) => {
            let mut i: usize = 0;
            while i < files.len()
                invariant
                    i <= files@.len(),
                    *library == BlueprintsLibrary::Files(*files),
                    forall|j: int|
                        0 <= j < files@.len() ==> (#[trigger] files@[j])@.len()
                            < 0x7fff_ffff_ffff_ffff,
                    first_with_stem(files@.subrange(0, i as int), name@) is None,
                decreases files@.len() - i,
            {
                assert(files@.subrange(0, i + 1).drop_last() =~= files@.subrange(0, i as int));
                if stem_matches(files[i].as_str(), name.as_str()) {
                    proof {
                        lemma_first_with_stem_prefix(files@, name@, i as int);
                    }
                    return Ok(files[i].clone());
                }
                i = i + 1;
            }
            assert(files@.subrange(0, files@.len() as int) =~= files@);
            Err(BlueprintError::UnknownBlueprint)
        },
    }
}

proof fn lemma_first_with_stem_prefix(files: Seq<String>, name: Seq<char>, i: int)
    requires
        0 <= i < files.len(),
        first_with_stem(files.subrange(0, i), name) is None,
        file_stem(files[i]@) == name,
    ensures
        first_with_stem(files, name) == Some(i),
    decreases files.len(),
{
    let pre = files.subrange(0, i + 1);
    assert(pre.drop_last() =~= files.subrange(0, i));
    assert(first_with_stem(pre, name) == Some(i));
    if files.len() > i + 1 {
        assert(files.drop_last().subrange(0, i) =~= files.subrange(0, i));
        lemma_first_with_stem_prefix(files.drop_last(), name, i);
    }
}

} // verus!
