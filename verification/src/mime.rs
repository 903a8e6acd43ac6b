use vstd::prelude::*;
use crate::text::{find_last, last_index_of, lemma_last_index_of, same_text};

verus! {

/// The last component of a `/`-separated path, as `Path::file_name` finds it: trailing
/// separators and `.` components are skipped, and a path ending in `..`, or with no
/// component left, has none.
pub open spec fn file_name(p: Seq<char>) -> Option<Seq<char>>
    decreases p.len(),
{
    let k = last_index_of(p, '/');
    let seg = p.subrange(k + 1, p.len() as int);
    if seg.len() == 0 || seg == seq!['.'] {
        if 0 <= k < p.len() {
            file_name(p.subrange(0, k))
        } else {
            None
        }
    } else if seg == seq!['.', '.'] {
        None
    } else {
        Some(seg)
    }
}

/// The extension of a file name, as `Path::extension` finds it: the text after the last
/// `.`, when that `.` is not the first character.
pub open spec fn extension_of(name: Seq<char>) -> Option<Seq<char>> {
    let k = last_index_of(name, '.');
    if k <= 0 {
        None
    } else {
        Some(name.subrange(k + 1, name.len() as int))
    }
}

/// The extension of the file a path names, if any.
pub open spec fn path_extension(p: Seq<char>) -> Option<Seq<char>> {
    match file_name(p) {
        Some(name) => extension_of(name),
        None => None,
    }
}

/// The image MIME type for an extension; JPEG when it is none of the known ones.
pub open spec fn mime_for_extension(ext: Option<Seq<char>>) -> Seq<char> {
    match ext {
        Some(e) => if e == "jpg"@ || e == "jpeg"@ {
            "image/jpeg"@
        } else if e == "png"@ {
            "image/png"@
        } else if e == "gif"@ {
            "image/gif"@
        } else if e == "webp"@ {
            "image/webp"@
        } else {
            "image/jpeg"@
        },
        None => "image/jpeg"@,
    }
}

/// The last component of `path`, computed on its text.
pub fn path_file_name(path: &str) -> (res: Option<&str>)
    ensures
        match res {
            Some(n) => file_name(path@) == Some(n@),
            None => file_name(path@) is None,
        },
{
    let n = path.unicode_len();
    let mut end: usize = n;
    assert(path@.subrange(0, n as int) =~= path@);
    loop
        invariant
            n == path@.len(),
            end <= n,
            file_name(path@) == file_name(path@.subrange(0, end as int)),
        decreases end,
    {
        let ghost p = path@.subrange(0, end as int);
        proof {
            lemma_last_index_of(p, '/');
        }
        let found = find_last(path, '/', end);
        let start: usize = match found {
            Some(k) => k + 1,
            None => 0,
        };
        let seg = path.substring_char(start, end);
        assert(seg@ =~= p.subrange(last_index_of(p, '/') + 1, p.len() as int));
        if seg.unicode_len() == 0 || same_text(seg, ".") {
            proof {
                reveal_strlit(".");
                assert("."@ =~= seq!['.']);
            }
            match found {
                Some(k) => {
                    assert(seg@.len() == 0 || seg@ == seq!['.']);
                    assert(file_name(p) == file_name(p.subrange(0, k as int)));
                    assert(path@.subrange(0, k as int) =~= p.subrange(0, k as int));
                    end = k;
                },
                None => {
                    assert(seg@.len() == 0 || seg@ == seq!['.']);
                    assert(file_name(p) is None);
                    return None;
                },
            }
        } else if same_text(seg, "..") {
            proof {
                reveal_strlit("..");
                reveal_strlit(".");
                assert(".."@ =~= seq!['.', '.']);
                assert(seg@ == seq!['.', '.']);
                assert(!(seg@ =~= seq!['.']));
                assert(file_name(p) is None);
            }
            return None;
        } else {
            proof {
                reveal_strlit("..");
                reveal_strlit(".");
                assert("."@ =~= seq!['.']);
                assert(".."@ =~= seq!['.', '.']);
                assert(seg@ != seq!['.']);
                assert(seg@ != seq!['.', '.']);
                assert(file_name(p) == Some(seg@));
            }
            return Some(seg);
        }
    }
}

/// The extension of a file name.
pub fn file_extension(name: &str) -> (res: Option<&str>)
    ensures
        match res {
            Some(e) => extension_of(name@) == Some(e@),
            None => extension_of(name@) is None,
        },
{
    let n = name.unicode_len();
    assert(name@.subrange(0, n as int) =~= name@);
    proof {
        lemma_last_index_of(name@, '.');
    }
    match find_last(name, '.', n) {
        Some(k) => {
            if k == 0 {
                None
            } else {
                Some(name.substring_char(k + 1, n))
            }
        },
        None => None,
    }
}

/// The MIME type of the image file at `path`, judged by its extension.
pub fn mime_type_from_path(path: &str) -> (res: &'static str)
    ensures
        res@ == mime_for_extension(path_extension(path@)),
{
    let ext = match path_file_name(path) {
        Some(name) => file_extension(name),
        None => None,
    };
    match ext {
        Some(e) => {
            if same_text(e, "jpg") || same_text(e, "jpeg") {
                "image/jpeg"
            } else if same_text(e, "png") {
                "image/png"
            } else if same_text(e, "gif") {
                "image/gif"
            } else if same_text(e, "webp") {
                "image/webp"
            } else {
                "image/jpeg"
            }
        },
        None => "image/jpeg",
    }
}

} // verus!

verus! {

proof fn lemma_last_index_skips(s: Seq<char>, t: Seq<char>, c: char)
    requires
        forall|i: int| 0 <= i < t.len() ==> t[i] != c,
    ensures
        last_index_of(s + t, c) == last_index_of(s, c),
    decreases t.len(),
{
    if t.len() > 0 {
        lemma_last_index_skips(s, t.drop_last(), c);
        assert((s + t).drop_last() =~= s + t.drop_last());
        assert((s + t).last() == t.last());
    } else {
        assert(s + t =~= s);
    }
}

/// The file a path names is its last component, whatever directories come before it,
/// absolute or relative: a name with no `/` that is neither `.` nor `..` is its own file
/// name, and the file name of `dir/name`.
pub proof fn lemma_file_name_of_last_component(dir: Seq<char>, name: Seq<char>)
    requires
        name.len() > 0,
        forall|i: int| 0 <= i < name.len() ==> name[i] != '/',
        name != seq!['.'],
        name != seq!['.', '.'],
    ensures
        file_name(name) == Some(name),
        file_name(dir + seq!['/'] + name) == Some(name),
        path_extension(dir + seq!['/'] + name) == extension_of(name),
        path_extension(name) == extension_of(name),
{
    lemma_last_index_skips(Seq::<char>::empty(), name, '/');
    assert(Seq::<char>::empty() + name =~= name);
    assert(name.subrange(-1 + 1, name.len() as int) =~= name);
    let p = dir + seq!['/'] + name;
    lemma_last_index_skips(dir + seq!['/'], name, '/');
    assert((dir + seq!['/']).drop_last() =~= dir);
    assert(last_index_of(dir + seq!['/'], '/') == dir.len());
    assert(p.subrange(dir.len() + 1int, p.len() as int) =~= name);
}

/// The extension of a file name is the text after its last `.`, once something precedes
/// that `.`.
pub proof fn lemma_extension_after_last_dot(stem: Seq<char>, ext: Seq<char>)
    requires
        stem.len() > 0,
        forall|i: int| 0 <= i < ext.len() ==> ext[i] != '.',
    ensures
        extension_of(stem + seq!['.'] + ext) == Some(ext),
{
    let name = stem + seq!['.'] + ext;
    lemma_last_index_skips(stem + seq!['.'], ext, '.');
    assert((stem + seq!['.']).drop_last() =~= stem);
    assert(last_index_of(stem + seq!['.'], '.') == stem.len());
    assert(name.subrange(stem.len() + 1int, name.len() as int) =~= ext);
}

/// An image named `<stem>.png` in any directory, given by an absolute or a relative path,
/// is a PNG image; likewise `.gif` and `.webp`, and `.jpg` or `.jpeg` is a JPEG.
pub proof fn lemma_mime_of_image_anywhere(dir: Seq<char>, stem: Seq<char>)
    requires
        stem.len() > 0,
        forall|i: int| 0 <= i < stem.len() ==> stem[i] != '/',
    ensures
        mime_for_extension(path_extension(dir + seq!['/'] + stem + ".png"@)) == "image/png"@,
        mime_for_extension(path_extension(stem + ".png"@)) == "image/png"@,
        mime_for_extension(path_extension(dir + seq!['/'] + stem + ".gif"@)) == "image/gif"@,
        mime_for_extension(path_extension(dir + seq!['/'] + stem + ".webp"@)) == "image/webp"@,
        mime_for_extension(path_extension(dir + seq!['/'] + stem + ".jpg"@)) == "image/jpeg"@,
        mime_for_extension(path_extension(dir + seq!['/'] + stem + ".jpeg"@)) == "image/jpeg"@,
{
    reveal_strlit(".png");
    reveal_strlit(".gif");
    reveal_strlit(".webp");
    reveal_strlit(".jpg");
    reveal_strlit(".jpeg");
    reveal_strlit("png");
    reveal_strlit("gif");
    reveal_strlit("webp");
    reveal_strlit("jpg");
    reveal_strlit("jpeg");
    lemma_image_kind(dir, stem, "png"@);
    lemma_image_kind(dir, stem, "gif"@);
    lemma_image_kind(dir, stem, "webp"@);
    lemma_image_kind(dir, stem, "jpg"@);
    lemma_image_kind(dir, stem, "jpeg"@);
    assert(stem + ".png"@ =~= stem + seq!['.'] + "png"@);
    assert("png"@ != "jpg"@ && "png"@ != "jpeg"@) by {
        assert("png"@[0] != "jpg"@[0]);
        assert("png"@[0] != "jpeg"@[0]);
    }
    assert(path_extension(stem + ".png"@) == Some("png"@));
    assert(mime_for_extension(Some("png"@)) == "image/png"@);
    assert(dir + seq!['/'] + stem + ".png"@ =~= dir + seq!['/'] + (stem + seq!['.'] + "png"@));
    assert(dir + seq!['/'] + stem + ".gif"@ =~= dir + seq!['/'] + (stem + seq!['.'] + "gif"@));
    assert(dir + seq!['/'] + stem + ".webp"@ =~= dir + seq!['/'] + (stem + seq!['.'] + "webp"@));
    assert(dir + seq!['/'] + stem + ".jpg"@ =~= dir + seq!['/'] + (stem + seq!['.'] + "jpg"@));
    assert(dir + seq!['/'] + stem + ".jpeg"@ =~= dir + seq!['/'] + (stem + seq!['.'] + "jpeg"@));
}

proof fn lemma_image_kind(dir: Seq<char>, stem: Seq<char>, ext: Seq<char>)
    requires
        stem.len() > 0,
        ext.len() > 0,
        forall|i: int| 0 <= i < stem.len() ==> stem[i] != '/',
        forall|i: int| 0 <= i < ext.len() ==> ext[i] != '/' && ext[i] != '.',
    ensures
        path_extension(dir + seq!['/'] + (stem + seq!['.'] + ext)) == Some(ext),
        path_extension(stem + seq!['.'] + ext) == Some(ext),
{
    let name = stem + seq!['.'] + ext;
    assert forall|i: int| 0 <= i < name.len() implies name[i] != '/' by {
        if i < stem.len() {
            assert(name[i] == stem[i]);
        } else if i > stem.len() {
            assert(name[i] == ext[i - stem.len() - 1]);
        }
    }
    assert(name.len() >= 3);
    assert(name != seq!['.']);
    assert(name != seq!['.', '.']);
    lemma_file_name_of_last_component(dir, name);
    lemma_extension_after_last_dot(stem, ext);
}

} // verus!

verus! {

/// A path is given the PNG, GIF or WebP type exactly when its extension is `png`, `gif` or
/// `webp`, and the JPEG type in every other case.
pub proof fn lemma_mime_by_extension(p: Seq<char>)
    ensures
        mime_for_extension(path_extension(p)) == "image/png"@ <==> path_extension(p) == Some("png"@),
        mime_for_extension(path_extension(p)) == "image/gif"@ <==> path_extension(p) == Some("gif"@),
        mime_for_extension(path_extension(p)) == "image/webp"@ <==> path_extension(p) == Some(
            "webp"@,
        ),
        mime_for_extension(path_extension(p)) == "image/jpeg"@ <==> !(path_extension(p) == Some(
            "png"@,
        ) || path_extension(p) == Some("gif"@) || path_extension(p) == Some("webp"@)),
{
    reveal_strlit("image/png");
    reveal_strlit("image/gif");
    reveal_strlit("image/webp");
    reveal_strlit("image/jpeg");
    reveal_strlit("png");
    reveal_strlit("gif");
    reveal_strlit("webp");
    reveal_strlit("jpg");
    reveal_strlit("jpeg");
    assert("image/png"@[6] != "image/jpeg"@[6]);
    assert("image/gif"@[6] != "image/jpeg"@[6]);
    assert("image/webp"@[6] != "image/jpeg"@[6]);
    assert("image/png"@[6] != "image/gif"@[6]);
    assert("image/png"@[6] != "image/webp"@[6]);
    assert("image/gif"@[6] != "image/webp"@[6]);
    assert("png"@[0] != "jpg"@[0] && "png"@[0] != "jpeg"@[0]);
    assert("gif"@[0] != "jpg"@[0] && "gif"@[0] != "jpeg"@[0] && "gif"@[0] != "png"@[0]);
    assert("webp"@[0] != "jpg"@[0] && "webp"@[0] != "jpeg"@[0] && "webp"@[0] != "png"@[0]
        && "webp"@[0] != "gif"@[0]);
}

} // verus!
