//! Extraction of the two consumed fields of a desktop-entry file.  A file
//! contributes an entry exactly when its name has the desktop-entry extension
//! and its text holds both a `Name=` line and an `Exec=` line; the first line
//! with each prefix supplies that field, and the display label is
//! `"<Name> (<Exec>)"`.

use vstd::prelude::*;
use crate::catalog::{Row, SpecRow};
use crate::entry::{Entry, SpecEntry};
use crate::text::{
    copy_range, clone_bytes, find_byte, has_prefix, is_prefix, lemma_find_byte, lines, lines_of,
    append_bytes, bytes_eq,
};

verus! {

/// The bytes of `"Name="`.
pub open spec fn name_prefix() -> Seq<u8> {
    seq![78u8, 97u8, 109u8, 101u8, 61u8]
}

/// The bytes of `"Exec="`.
pub open spec fn exec_prefix() -> Seq<u8> {
    seq![69u8, 120u8, 101u8, 99u8, 61u8]
}

/// The bytes of `".desktop"`, the desktop-entry extension with its dot.
pub open spec fn desktop_ext() -> Seq<u8> {
    seq![46u8, 100u8, 101u8, 115u8, 107u8, 116u8, 111u8, 112u8]
}

/// Builds the `"Name="` prefix.
pub fn name_prefix_bytes() -> (r: Vec<u8>)
    ensures
        r@ == name_prefix(),
{
    let mut v: Vec<u8> = Vec::new();
    v.push(78u8);
    v.push(97u8);
    v.push(109u8);
    v.push(101u8);
    v.push(61u8);
    proof {
        assert(v@ =~= name_prefix());
    }
    v
}

/// Builds the `"Exec="` prefix.
pub fn exec_prefix_bytes() -> (r: Vec<u8>)
    ensures
        r@ == exec_prefix(),
{
    let mut v: Vec<u8> = Vec::new();
    v.push(69u8);
    v.push(120u8);
    v.push(101u8);
    v.push(99u8);
    v.push(61u8);
    proof {
        assert(v@ =~= exec_prefix());
    }
    v
}

/// Builds the `".desktop"` extension bytes.
pub fn desktop_ext_bytes() -> (r: Vec<u8>)
    ensures
        r@ == desktop_ext(),
{
    let mut v: Vec<u8> = Vec::new();
    v.push(46u8);
    v.push(100u8);
    v.push(101u8);
    v.push(115u8);
    v.push(107u8);
    v.push(116u8);
    v.push(111u8);
    v.push(112u8);
    proof {
        assert(v@ =~= desktop_ext());
    }
    v
}

/// The value of the first line of `ls` that begins with `p`: the rest of
/// that line after the prefix, or `None` when no line has the prefix.
pub open spec fn first_field(ls: Seq<Seq<u8>>, p: Seq<u8>) -> Option<Seq<u8>>
    decreases ls.len(),
{
    if ls.len() == 0 {
        None
    } else if is_prefix(p, ls[0]) {
        Some(ls[0].skip(p.len() as int))
    } else {
        first_field(ls.drop_first(), p)
    }
}

/// A first match in `a` wins over anything in `b`; with no match in `a`,
/// the concatenation scans `b`.
pub proof fn lemma_first_field_concat(a: Seq<Seq<u8>>, b: Seq<Seq<u8>>, p: Seq<u8>)
    ensures
        first_field(a + b, p) == (if first_field(a, p) is Some {
            first_field(a, p)
        } else {
            first_field(b, p)
        }),
    decreases a.len(),
{
    if a.len() == 0 {
        assert(a + b =~= b);
    } else {
        assert((a + b)[0] == a[0]);
        assert((a + b).drop_first() =~= a.drop_first() + b);
        lemma_first_field_concat(a.drop_first(), b, p);
    }
}

/// `first_field` on a single line.
pub proof fn lemma_first_field_single(x: Seq<u8>, p: Seq<u8>)
    ensures
        first_field(seq![x], p) == (if is_prefix(p, x) {
            Some(x.skip(p.len() as int))
        } else {
            None::<Seq<u8>>
        }),
{
    assert(seq![x][0] == x);
    assert(seq![x].drop_first() =~= Seq::<Seq<u8>>::empty());
    assert(first_field(Seq::<Seq<u8>>::empty(), p) is None);
}

/// The base name of a path: the suffix after the last `/`, or the whole
/// path when it holds none.
pub open spec fn base_name_of(p: Seq<u8>) -> Seq<u8>
    decreases p.len(),
{
    let i = find_byte(p, 47u8);
    if 0 <= i < p.len() {
        base_name_of(p.skip(i + 1))
    } else {
        p
    }
}

/// `base_name_of` is the suffix that starts right after the last `/`.
pub proof fn lemma_base_name_at(p: Seq<u8>, j: int)
    requires
        0 <= j <= p.len(),
        forall|k: int| j <= k < p.len() ==> p[k] != 47u8,
        j > 0 ==> p[j - 1] == 47u8,
    ensures
        base_name_of(p) == p.skip(j),
    decreases p.len(),
{
    lemma_find_byte(p, 47u8);
    let i = find_byte(p, 47u8);
    if i < p.len() {
        if i >= j {
            assert(p[i] != 47u8);
            assert(false);
        }
        assert forall|k: int| j - i - 1 <= k < p.skip(i + 1).len() implies #[trigger] p.skip(
            i + 1,
        )[k] != 47u8 by {
            assert(p[k + i + 1] != 47u8);
        }
        if j - i - 1 > 0 {
            assert(p.skip(i + 1)[j - i - 2] == p[j - 1]);
        }
        lemma_base_name_at(p.skip(i + 1), j - i - 1);
        assert(p.skip(i + 1).skip(j - i - 1) =~= p.skip(j));
    } else {
        if j > 0 {
            assert(p[j - 1] != 47u8);
            assert(false);
        }
        assert(p.skip(0) =~= p);
    }
}

/// The base name of `path`, as `base_name_of` describes.
pub fn base_name(path: &Vec<u8>) -> (r: Vec<u8>)
    ensures
        r@ == base_name_of(path@),
{
    let mut j: usize = path.len();
    while j > 0 && path[j - 1] != 47u8
        invariant
            0 <= j <= path@.len(),
            forall|k: int| j <= k < path@.len() ==> path@[k] != 47u8,
        decreases j,
    {
        j = j - 1;
    }
    proof {
        lemma_base_name_at(path@, j as int);
        assert(path@.subrange(j as int, path@.len() as int) =~= path@.skip(j as int));
    }
    copy_range(path, j, path.len())
}

/// The file name carries the desktop-entry extension: it ends with
/// `".desktop"` and has a nonempty stem before it.
pub open spec fn has_desktop_ext(name: Seq<u8>) -> bool {
    name.len() > desktop_ext().len() && name.skip(name.len() - desktop_ext().len())
        == desktop_ext()
}

/// Extension test on a file name, as `has_desktop_ext` describes.
pub fn is_desktop_file(name: &Vec<u8>) -> (r: bool)
    ensures
        r == has_desktop_ext(name@),
{
    let ext = desktop_ext_bytes();
    if name.len() <= ext.len() {
        return false;
    }
    let tail = copy_range(name, name.len() - ext.len(), name.len());
    proof {
        assert(tail@ =~= name@.skip(name@.len() - desktop_ext().len()));
    }
    bytes_eq(&tail, &ext)
}

/// Display label built from the two fields: `"<name> (<exec>)"`.
pub open spec fn label_of(name: Seq<u8>, exec_cmd: Seq<u8>) -> Seq<u8> {
    name + seq![32u8, 40u8] + exec_cmd + seq![41u8]
}

/// What parsing the file at `path` with bytes `content` yields: an entry
/// exactly when the base name has the desktop-entry extension and the text
/// holds both fields; its label combines the two fields and its source path
/// is `path` itself.
pub open spec fn spec_parse(path: Seq<u8>, content: Seq<u8>) -> Option<SpecEntry> {
    match (first_field(lines_of(content), name_prefix()), first_field(
        lines_of(content),
        exec_prefix(),
    )) {
        (Some(n), Some(e)) => if has_desktop_ext(base_name_of(path)) {
            Some(SpecEntry { display_label: label_of(n, e), source_path: path })
        } else {
            None
        },
        _ => None,
    }
}

/// Parses one candidate desktop-entry file, as `spec_parse` describes.  The
/// scan visits lines in order, keeps the first occurrence of each field and
/// stops as soon as both are found.
pub fn parse_desktop_file(path: &Vec<u8>, content: &Vec<u8>) -> (r: Option<Entry>)
    ensures
        r.deep_view() == spec_parse(path@, content@),
{
    let bn = base_name(path);
    if !is_desktop_file(&bn) {
        return None;
    }
    let ls = lines(content);
    let npre = name_prefix_bytes();
    let epre = exec_prefix_bytes();
    let ghost lsv = ls.deep_view();
    let mut name_v: Option<Vec<u8>> = None;
    let mut exec_v: Option<Vec<u8>> = None;
    let mut i: usize = 0;
    proof {
        assert(lsv.take(0) =~= Seq::<Seq<u8>>::empty());
    }
    while i < ls.len() && !(name_v.is_some() && exec_v.is_some())
        invariant
            0 <= i <= lsv.len(),
            lsv == ls.deep_view(),
            npre@ == name_prefix(),
            epre@ == exec_prefix(),
            name_v.deep_view() == first_field(lsv.take(i as int), name_prefix()),
            exec_v.deep_view() == first_field(lsv.take(i as int), exec_prefix()),
        decreases lsv.len() - i,
    {
        let line = &ls[i];
        proof {
            assert(ls@[i as int].deep_view() =~= line@);
            assert(lsv.take(i + 1) =~= lsv.take(i as int) + seq![lsv[i as int]]);
            lemma_first_field_concat(lsv.take(i as int), seq![lsv[i as int]], name_prefix());
            lemma_first_field_concat(lsv.take(i as int), seq![lsv[i as int]], exec_prefix());
            lemma_first_field_single(lsv[i as int], name_prefix());
            lemma_first_field_single(lsv[i as int], exec_prefix());
        }
        if name_v.is_none() && has_prefix(line, &npre) {
            let val = copy_range(line, npre.len(), line.len());
            proof {
                assert(val.deep_view() =~= val@);
                assert(val@ =~= lsv[i as int].skip(name_prefix().len() as int));
            }
            name_v = Some(val);
        }
        if exec_v.is_none() && has_prefix(line, &epre) {
            let val = copy_range(line, epre.len(), line.len());
            proof {
                assert(val.deep_view() =~= val@);
                assert(val@ =~= lsv[i as int].skip(exec_prefix().len() as int));
            }
            exec_v = Some(val);
        }
        i = i + 1;
    }
    proof {
        if i == lsv.len() {
            assert(lsv.take(lsv.len() as int) =~= lsv);
        } else {
            assert(lsv.take(i as int) + lsv.skip(i as int) =~= lsv);
            lemma_first_field_concat(lsv.take(i as int), lsv.skip(i as int), name_prefix());
            lemma_first_field_concat(lsv.take(i as int), lsv.skip(i as int), exec_prefix());
        }
    }
    match (name_v, exec_v) {
        (Some(n), Some(e)) => {
            let ghost nspec = n.deep_view();
            let ghost espec = e.deep_view();
            proof {
                assert(nspec =~= n@);
                assert(espec =~= e@);
            }
            let mut label = n;
            label.push(32u8);
            label.push(40u8);
            append_bytes(&mut label, &e);
            label.push(41u8);
            proof {
                assert(label@ =~= label_of(nspec, espec));
            }
            Some(Entry { display_label: label, source_path: clone_bytes(path) })
        },
        _ => None,
    }
}

/// What one worker step yields for a file: the parsed entry keyed by the
/// file's base name, or nothing.
pub open spec fn spec_row_for(path: Seq<u8>, content: Seq<u8>) -> Option<SpecRow> {
    match spec_parse(path, content) {
        Some(e) => Some(SpecRow { key: base_name_of(path), entry: e }),
        None => None,
    }
}

/// Parses one file and keys the result by its base name, as `spec_row_for`
/// describes.
pub fn row_for(path: &Vec<u8>, content: &Vec<u8>) -> (r: Option<Row>)
    ensures
        r.deep_view() == spec_row_for(path@, content@),
{
    match parse_desktop_file(path, content) {
        Some(e) => Some(Row { key: base_name(path), entry: e }),
        None => None,
    }
}

/// Only a file with the desktop-entry extension yields a row, so the bound
/// of `lemma_catalog_size` counts only such files.
pub proof fn lemma_row_only_for_desktop_files(path: Seq<u8>, content: Seq<u8>)
    ensures
        spec_row_for(path, content) is Some ==> has_desktop_ext(base_name_of(path)),
{
}

} // verus!
