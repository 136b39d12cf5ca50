//! The artifact generator.  From a taxonomy document and the scanned
//! asset tree it computes, deterministically: the sorted style list, the
//! shared canvas, the sorted canonical icon set, each icon's normalized
//! fragment array and categories, and the emitted source artifacts.

use vstd::prelude::*;
use crate::casing::{snake_of, to_snake, to_upper_camel, upper_camel_of};
use crate::num::{dec_le, dec_le_x, dec_wf, digits_of, push_digits, Decimal};
use crate::strings::{
    chars_of, insert_unique, insert_unique_spec, lemma_insert_unique_spec_sorted,
    lemma_sort_lex_spec_sorted, sort_lex, sort_lex_spec, sorted_lex, strictly_sorted_lex, string_of,
};
use crate::svg::{normalize_svg, spec_normalize_svg, spec_parse_viewbox, parse_viewbox};
use crate::taxonomy::{
    categories_for, categories_for_spec, category_set_spec, extract_categories, mapping_of,
    mapping_view, taxonomy_of,
};
use crate::templates::{
    append_lit, cargo_template, cargo_template_spec, icon_template, icon_template_spec, mod_entry,
    mod_entry_spec,
};

verus! {

/// One scanned file of a style directory: its name and, when it was
/// readable, its text.
pub struct SourceFile {
    pub name: String,
    pub content: Option<String>,
}

/// One style directory: its name and its files.
pub struct StyleDir {
    pub name: String,
    pub files: Vec<SourceFile>,
}

pub open spec fn file_view(f: SourceFile) -> (Seq<char>, Option<Seq<char>>) {
    (
        f.name@,
        match f.content {
            Some(c) => Some(c@),
            None => None,
        },
    )
}

pub open spec fn dir_view(d: StyleDir) -> (Seq<char>, Seq<(Seq<char>, Option<Seq<char>>)>) {
    (d.name@, d.files@.map(|i: int, f: SourceFile| file_view(f)))
}

pub open spec fn tree_view(t: Seq<StyleDir>) -> Seq<
    (Seq<char>, Seq<(Seq<char>, Option<Seq<char>>)>),
> {
    t.map(|i: int, d: StyleDir| dir_view(d))
}

/// The directory names, in scan order.
pub open spec fn style_names(tv: Seq<(Seq<char>, Seq<(Seq<char>, Option<Seq<char>>)>)>) -> Seq<
    Seq<char>,
> {
    tv.map(|i: int, d: (Seq<char>, Seq<(Seq<char>, Option<Seq<char>>)>)| d.0)
}

/// The style names in their fixed lexicographic order.
pub fn scan_styles(tree: &Vec<StyleDir>) -> (r: Vec<String>)
    ensures
        r.deep_view() == sort_lex_spec(style_names(tree_view(tree@))),
        sorted_lex(r.deep_view()),
{
    let ghost tv = tree_view(tree@);
    let mut names: Vec<String> = Vec::new();
    let mut i: usize = 0;
    proof {
        assert(names.deep_view() =~= style_names(tv).subrange(0, 0));
    }
    while i < tree.len()
        invariant
            0 <= i <= tree@.len(),
            tv == tree_view(tree@),
            tv.len() == tree@.len(),
            names.deep_view() == style_names(tv).subrange(0, i as int),
        decreases tree@.len() - i,
    {
        proof {
            assert(style_names(tv).subrange(0, i as int).len() == i);
            assert(names.deep_view().len() == i);
            assert(names@.len() == i);
        }
        let n = tree[i].name.clone();
        proof {
            assert(tv[i as int] == dir_view(tree@[i as int]));
            assert(style_names(tv)[i as int] == tv[i as int].0);
        }
        names.push(n);
        assert(names.deep_view() =~= style_names(tv).subrange(0, i + 1 as int));
        i += 1;
    }
    proof {
        assert(style_names(tv).subrange(0, style_names(tv).len() as int) =~= style_names(tv));
        lemma_sort_lex_spec_sorted(style_names(tv));
    }
    sort_lex(&names)
}

/// A file name carries the SVG suffix.
pub open spec fn ends_svg(n: Seq<char>) -> bool {
    n.len() >= 4 && n.subrange(n.len() - 4, n.len() as int) == ".svg"@
}

/// The file name with the SVG suffix removed.
pub open spec fn svg_base(n: Seq<char>) -> Seq<char> {
    n.subrange(0, n.len() - 4)
}

/// The base name of a file that carries the SVG suffix.
fn svg_base_x(name: &String) -> (r: Option<String>)
    ensures
        match r {
            Some(b) => ends_svg(name@) && b@ == svg_base(name@),
            None => !ends_svg(name@),
        },
{
    let v = chars_of(name.as_str());
    let n = v.len();
    if n < 4 {
        return None;
    }
    let suffix: Vec<char> = vec!['.', 's', 'v', 'g'];
    proof {
        reveal_strlit(".svg");
    }
    assert(suffix@ =~= ".svg"@);
    if v[n - 4] == suffix[0] && v[n - 3] == suffix[1] && v[n - 2] == suffix[2] && v[n - 1]
        == suffix[3] {
        assert(v@.subrange(n - 4, n as int) =~= ".svg"@);
        let mut base: Vec<char> = Vec::new();
        let mut i: usize = 0;
        while i < n - 4
            invariant
                4 <= n == v@.len(),
                0 <= i <= n - 4,
                base@ == v@.subrange(0, i as int),
            decreases n - 4 - i,
        {
            base.push(v[i]);
            assert(base@ =~= v@.subrange(0, i + 1 as int));
            i += 1;
        }
        Some(string_of(&base))
    } else {
        assert(!ends_svg(name@)) by {
            if ends_svg(name@) {
                assert(name@.subrange(n - 4, n as int)[0] == ".svg"@[0]);
                assert(name@.subrange(n - 4, n as int)[1] == ".svg"@[1]);
                assert(name@.subrange(n - 4, n as int)[2] == ".svg"@[2]);
                assert(name@.subrange(n - 4, n as int)[3] == ".svg"@[3]);
            }
        }
        None
    }
}

/// The base names of one directory's SVG files folded into a sorted set.
pub open spec fn add_dir_names(
    acc: Seq<Seq<char>>,
    files: Seq<(Seq<char>, Option<Seq<char>>)>,
) -> Seq<Seq<char>>
    decreases files.len(),
{
    if files.len() == 0 {
        acc
    } else {
        let prev = add_dir_names(acc, files.drop_last());
        if ends_svg(files.last().0) {
            insert_unique_spec(svg_base(files.last().0), prev)
        } else {
            prev
        }
    }
}

/// The base names of every directory's SVG files folded into a sorted set.
pub open spec fn add_tree_names(
    acc: Seq<Seq<char>>,
    tv: Seq<(Seq<char>, Seq<(Seq<char>, Option<Seq<char>>)>)>,
) -> Seq<Seq<char>>
    decreases tv.len(),
{
    if tv.len() == 0 {
        acc
    } else {
        add_dir_names(add_tree_names(acc, tv.drop_last()), tv.last().1)
    }
}

/// The canonical icon-name set: the union of base names over all styles.
pub open spec fn icon_names_spec(
    tv: Seq<(Seq<char>, Seq<(Seq<char>, Option<Seq<char>>)>)>,
) -> Seq<Seq<char>> {
    add_tree_names(Seq::empty(), tv)
}

proof fn lemma_add_dir_names_sorted(acc: Seq<Seq<char>>, files: Seq<(Seq<char>, Option<Seq<char>>)>)
    requires
        strictly_sorted_lex(acc),
    ensures
        strictly_sorted_lex(add_dir_names(acc, files)),
    decreases files.len(),
{
    if files.len() > 0 {
        lemma_add_dir_names_sorted(acc, files.drop_last());
        if ends_svg(files.last().0) {
            lemma_insert_unique_spec_sorted(
                svg_base(files.last().0),
                add_dir_names(acc, files.drop_last()),
            );
        }
    }
}

proof fn lemma_add_tree_names_sorted(
    acc: Seq<Seq<char>>,
    tv: Seq<(Seq<char>, Seq<(Seq<char>, Option<Seq<char>>)>)>,
)
    requires
        strictly_sorted_lex(acc),
    ensures
        strictly_sorted_lex(add_tree_names(acc, tv)),
    decreases tv.len(),
{
    if tv.len() > 0 {
        lemma_add_tree_names_sorted(acc, tv.drop_last());
        lemma_add_dir_names_sorted(add_tree_names(acc, tv.drop_last()), tv.last().1);
    }
}

/// The canonical icon names, each once, in lexicographic order.
pub fn scan_icon_names(tree: &Vec<StyleDir>) -> (r: Vec<String>)
    ensures
        r.deep_view() == icon_names_spec(tree_view(tree@)),
        strictly_sorted_lex(r.deep_view()),
{
    let ghost tv = tree_view(tree@);
    let mut names: Vec<String> = Vec::new();
    let mut i: usize = 0;
    proof {
        assert(tv.subrange(0, 0) =~= Seq::empty());
        assert(names.deep_view() =~= add_tree_names(Seq::empty(), tv.subrange(0, 0)));
    }
    while i < tree.len()
        invariant
            0 <= i <= tree@.len(),
            tv == tree_view(tree@),
            tv.len() == tree@.len(),
            names.deep_view() == add_tree_names(Seq::empty(), tv.subrange(0, i as int)),
            strictly_sorted_lex(names.deep_view()),
        decreases tree@.len() - i,
    {
        let ghost tpre = tv.subrange(0, i as int);
        let ghost tpost = tv.subrange(0, i + 1 as int);
        proof {
            assert(tpost.drop_last() =~= tpre);
            assert(tpost.last() == tv[i as int]);
            assert(tv[i as int] == dir_view(tree@[i as int]));
        }
        let dir = &tree[i];
        let ghost fv = tv[i as int].1;
        let mut j: usize = 0;
        proof {
            assert(fv.subrange(0, 0) =~= Seq::empty());
            assert(names.deep_view() =~= add_dir_names(
                add_tree_names(Seq::empty(), tpre),
                fv.subrange(0, 0),
            ));
        }
        while j < dir.files.len()
            invariant
                0 <= j <= dir.files@.len(),
                fv == dir_view(tree@[i as int]).1,
                fv.len() == dir.files@.len(),
                i < tree@.len(),
                tv == tree_view(tree@),
                tv.len() == tree@.len(),
                tv[i as int] == dir_view(tree@[i as int]),
                dir == tree@[i as int],
                tpre == tv.subrange(0, i as int),
                names.deep_view() == add_dir_names(
                    add_tree_names(Seq::empty(), tpre),
                    fv.subrange(0, j as int),
                ),
                strictly_sorted_lex(names.deep_view()),
            decreases dir.files@.len() - j,
        {
            let ghost fpre = fv.subrange(0, j as int);
            let ghost fpost = fv.subrange(0, j + 1 as int);
            proof {
                assert(fpost.drop_last() =~= fpre);
                assert(fpost.last() == fv[j as int]);
                assert(fv[j as int] == file_view(dir.files@[j as int]));
            }
            match svg_base_x(&dir.files[j].name) {
                Some(base) => {
                    proof {
                        lemma_insert_unique_spec_sorted(base@, names.deep_view());
                    }
                    names = insert_unique(names, base);
                },
                None => {},
            }
            assert(names.deep_view() == add_dir_names(
                add_tree_names(Seq::empty(), tpre),
                fpost,
            ));
            j += 1;
        }
        proof {
            assert(fv.subrange(0, fv.len() as int) =~= fv);
            assert(names.deep_view() == add_tree_names(Seq::empty(), tpost));
        }
        i += 1;
    }
    proof {
        assert(tv.subrange(0, tv.len() as int) =~= tv);
    }
    names
}

/// The running maximum updated by one observed dimension pair.
pub open spec fn canvas_join(c: Option<Decimal>, w: Decimal, h: Decimal) -> Option<Decimal> {
    let m = if dec_le(w, h) {
        h
    } else {
        w
    };
    match c {
        None => Some(m),
        Some(cv) => if dec_le(m, cv) {
            Some(cv)
        } else {
            Some(m)
        },
    }
}

/// The running maximum after one directory's files.  Only the discovered
/// SVG files are scanned: a file without the suffix contributes nothing.
pub open spec fn canvas_of_files(
    c: Option<Decimal>,
    files: Seq<(Seq<char>, Option<Seq<char>>)>,
) -> Option<Decimal>
    decreases files.len(),
{
    if files.len() == 0 {
        c
    } else {
        let prev = canvas_of_files(c, files.drop_last());
        if ends_svg(files.last().0) {
            match files.last().1 {
                Some(content) => match spec_parse_viewbox(content) {
                    Some(dims) => canvas_join(prev, dims.0, dims.1),
                    None => prev,
                },
                None => prev,
            }
        } else {
            prev
        }
    }
}

/// The running maximum after the whole tree.
pub open spec fn canvas_of_tree(
    c: Option<Decimal>,
    tv: Seq<(Seq<char>, Seq<(Seq<char>, Option<Seq<char>>)>)>,
) -> Option<Decimal>
    decreases tv.len(),
{
    if tv.len() == 0 {
        c
    } else {
        canvas_of_files(canvas_of_tree(c, tv.drop_last()), tv.last().1)
    }
}

pub open spec fn baseline_canvas() -> Decimal {
    Decimal { mant: 256, frac: 0 }
}

/// The shared canvas: the largest view box dimension observed across the
/// discovered SVG files, or the 256 baseline when none yields one.
pub open spec fn canvas_spec(tv: Seq<(Seq<char>, Seq<(Seq<char>, Option<Seq<char>>)>)>) -> Decimal {
    match canvas_of_tree(None, tv) {
        Some(c) => c,
        None => baseline_canvas(),
    }
}

/// The shared canvas: the largest view box dimension observed across the
/// discovered SVG files, or the 256 baseline when none yields one.
pub fn scan_canvas(tree: &Vec<StyleDir>) -> (r: Decimal)
    ensures
        r == canvas_spec(tree_view(tree@)),
        dec_wf(r),
{
    let ghost tv = tree_view(tree@);
    let mut c: Option<Decimal> = None;
    let mut i: usize = 0;
    proof {
        assert(tv.subrange(0, 0) =~= Seq::empty());
    }
    while i < tree.len()
        invariant
            0 <= i <= tree@.len(),
            tv == tree_view(tree@),
            tv.len() == tree@.len(),
            c == canvas_of_tree(None, tv.subrange(0, i as int)),
            c matches Some(cv) ==> dec_wf(cv),
        decreases tree@.len() - i,
    {
        let ghost tpre = tv.subrange(0, i as int);
        let ghost tpost = tv.subrange(0, i + 1 as int);
        proof {
            assert(tpost.drop_last() =~= tpre);
            assert(tpost.last() == tv[i as int]);
            assert(tv[i as int] == dir_view(tree@[i as int]));
        }
        let dir = &tree[i];
        let ghost fv = tv[i as int].1;
        let mut j: usize = 0;
        proof {
            assert(fv.subrange(0, 0) =~= Seq::empty());
        }
        while j < dir.files.len()
            invariant
                0 <= j <= dir.files@.len(),
                fv == dir_view(tree@[i as int]).1,
                fv.len() == dir.files@.len(),
                i < tree@.len(),
                tv == tree_view(tree@),
                tv.len() == tree@.len(),
                tv[i as int] == dir_view(tree@[i as int]),
                dir == tree@[i as int],
                tpre == tv.subrange(0, i as int),
                c == canvas_of_files(canvas_of_tree(None, tpre), fv.subrange(0, j as int)),
                c matches Some(cv) ==> dec_wf(cv),
            decreases dir.files@.len() - j,
        {
            let ghost fpre = fv.subrange(0, j as int);
            let ghost fpost = fv.subrange(0, j + 1 as int);
            proof {
                assert(fpost.drop_last() =~= fpre);
                assert(fpost.last() == fv[j as int]);
                assert(fv[j as int] == file_view(dir.files@[j as int]));
            }
            let is_svg = match svg_base_x(&dir.files[j].name) {
                Some(_) => true,
                None => false,
            };
            if is_svg {
                assert(ends_svg(fv[j as int].0));
                match &dir.files[j].content {
                    Some(content) => {
                        assert(fv[j as int].1 == Some(content@));
                        match parse_viewbox(content.as_str()) {
                            Some((w, h)) => {
                                let m = if dec_le_x(&w, &h) {
                                    h
                                } else {
                                    w
                                };
                                match c {
                                    Some(cv) => {
                                        if !dec_le_x(&m, &cv) {
                                            c = Some(m);
                                        }
                                    },
                                    None => {
                                        c = Some(m);
                                    },
                                }
                                assert(c == canvas_of_files(canvas_of_tree(None, tpre), fpost));
                            },
                            None => {
                                assert(c == canvas_of_files(canvas_of_tree(None, tpre), fpost));
                            },
                        }
                    },
                    None => {
                        assert(fv[j as int].1 is None);
                        assert(c == canvas_of_files(canvas_of_tree(None, tpre), fpost));
                    },
                }
            } else {
                assert(!ends_svg(fv[j as int].0));
                assert(c == canvas_of_files(canvas_of_tree(None, tpre), fpost));
            }
            j += 1;
        }
        proof {
            assert(fv.subrange(0, fv.len() as int) =~= fv);
            assert(c == canvas_of_tree(None, tpost));
        }
        i += 1;
    }
    proof {
        assert(tv.subrange(0, tv.len() as int) =~= tv);
    }
    match c {
        Some(cv) => cv,
        None => Decimal { mant: 256, frac: 0 },
    }
}

/// The first directory of the given name, if any.
pub open spec fn lookup_dir(
    tv: Seq<(Seq<char>, Seq<(Seq<char>, Option<Seq<char>>)>)>,
    name: Seq<char>,
) -> Option<Seq<(Seq<char>, Option<Seq<char>>)>>
    decreases tv.len(),
{
    if tv.len() == 0 {
        None
    } else if tv[0].0 == name {
        Some(tv[0].1)
    } else {
        lookup_dir(tv.drop_first(), name)
    }
}

/// The first file of the given name, if any.
pub open spec fn lookup_file(
    files: Seq<(Seq<char>, Option<Seq<char>>)>,
    name: Seq<char>,
) -> Option<Option<Seq<char>>>
    decreases files.len(),
{
    if files.len() == 0 {
        None
    } else if files[0].0 == name {
        Some(files[0].1)
    } else {
        lookup_file(files.drop_first(), name)
    }
}

/// What one (style, icon) slot's source document reads as: the file's
/// text when present and readable, the empty document otherwise.
pub open spec fn slot_source(
    tv: Seq<(Seq<char>, Seq<(Seq<char>, Option<Seq<char>>)>)>,
    style: Seq<char>,
    file_name: Seq<char>,
) -> Seq<char> {
    match lookup_dir(tv, style) {
        None => Seq::empty(),
        Some(files) => match lookup_file(files, file_name) {
            None => Seq::empty(),
            Some(None) => Seq::empty(),
            Some(Some(content)) => content,
        },
    }
}

/// A (style, icon) slot has no readable source file.
pub open spec fn slot_missing(
    tv: Seq<(Seq<char>, Seq<(Seq<char>, Option<Seq<char>>)>)>,
    style: Seq<char>,
    file_name: Seq<char>,
) -> bool {
    match lookup_dir(tv, style) {
        None => true,
        Some(files) => match lookup_file(files, file_name) {
            None => true,
            Some(None) => true,
            Some(Some(content)) => false,
        },
    }
}

/// The source text of one (style, icon) slot.
fn slot_source_x(tree: &Vec<StyleDir>, style: &String, file_name: &String) -> (r: String)
    ensures
        r@ == slot_source(tree_view(tree@), style@, file_name@),
{
    let ghost tv = tree_view(tree@);
    let mut i: usize = 0;
    proof {
        assert(tv.subrange(0, tv.len() as int) =~= tv);
    }
    while i < tree.len()
        invariant
            0 <= i <= tree@.len(),
            tv == tree_view(tree@),
            tv.len() == tree@.len(),
            lookup_dir(tv, style@) == lookup_dir(
                tv.subrange(i as int, tv.len() as int),
                style@,
            ),
        decreases tree@.len() - i,
    {
        let ghost rest = tv.subrange(i as int, tv.len() as int);
        proof {
            assert(rest[0] == tv[i as int]);
            assert(tv[i as int] == dir_view(tree@[i as int]));
            assert(rest.drop_first() =~= tv.subrange(i + 1 as int, tv.len() as int));
        }
        if tree[i].name.eq(style) {
            let dir = &tree[i];
            let ghost files = tv[i as int].1;
            assert(lookup_dir(tv, style@) == Some(files));
            let mut j: usize = 0;
            proof {
                assert(files.subrange(0, files.len() as int) =~= files);
            }
            while j < dir.files.len()
                invariant
                    0 <= j <= dir.files@.len(),
                    i < tree@.len(),
                    tv == tree_view(tree@),
                    tv[i as int] == dir_view(tree@[i as int]),
                    dir == tree@[i as int],
                    files == dir_view(tree@[i as int]).1,
                    files.len() == dir.files@.len(),
                    lookup_dir(tv, style@) == Some(files),
                    lookup_file(files, file_name@) == lookup_file(
                        files.subrange(j as int, files.len() as int),
                        file_name@,
                    ),
                decreases dir.files@.len() - j,
            {
                let ghost frest = files.subrange(j as int, files.len() as int);
                proof {
                    assert(frest[0] == files[j as int]);
                    assert(files[j as int] == file_view(dir.files@[j as int]));
                    assert(frest.drop_first() =~= files.subrange(
                        j + 1 as int,
                        files.len() as int,
                    ));
                }
                if dir.files[j].name.eq(file_name) {
                    match &dir.files[j].content {
                        Some(content) => {
                            assert(files[j as int].1 == Some(content@));
                            return content.clone();
                        },
                        None => {
                            assert(files[j as int].1 is None);
                            return String::new();
                        },
                    }
                }
                assert(files[j as int].0 != file_name@);
                j += 1;
            }
            proof {
                assert(files.subrange(files.len() as int, files.len() as int)
                    =~= Seq::<(Seq<char>, Option<Seq<char>>)>::empty());
            }
            return String::new();
        }
        assert(tv[i as int].0 != style@);
        i += 1;
    }
    proof {
        assert(tv.subrange(tv.len() as int, tv.len() as int) =~= Seq::<
            (Seq<char>, Seq<(Seq<char>, Option<Seq<char>>)>),
        >::empty());
    }
    String::new()
}

/// One icon's fragment array: the normalized fragment of its source in
/// each style, in the fixed style order.
pub open spec fn fragments_spec(
    tv: Seq<(Seq<char>, Seq<(Seq<char>, Option<Seq<char>>)>)>,
    styles: Seq<Seq<char>>,
    name: Seq<char>,
    canvas: Decimal,
) -> Seq<Seq<char>> {
    styles.map(
        |i: int, s: Seq<char>| spec_normalize_svg(slot_source(tv, s, name + ".svg"@), canvas),
    )
}

/// The whole module index: one entry per icon, in icon order.
pub open spec fn mod_index_spec(
    m: Seq<(Seq<char>, Seq<Seq<char>>)>,
    names: Seq<Seq<char>>,
) -> Seq<char>
    decreases names.len(),
{
    if names.len() == 0 {
        Seq::empty()
    } else {
        mod_index_spec(m, names.drop_last()) + mod_entry_spec(
            snake_of(names.last()),
            categories_for_spec(m, names.last()),
        )
    }
}

/// The fixed leading text of the emitted library source.
pub open spec fn lib_head_spec() -> Seq<char> {
    "//! Icon data: one constant per icon, one fragment per style, all\n//! rescaled onto the shared canvas.\n\nuse leptos::{prelude::*, text_prop::TextProp};\n\nmod icons;\npub use icons::*;\n\n/// An icon's style.\n#[derive(Debug, Clone, Copy, PartialEq, Eq)]\npub enum IconStyle {\n"@
}

/// One enum variant line per style.
pub open spec fn variants_spec(styles: Seq<Seq<char>>) -> Seq<char>
    decreases styles.len(),
{
    if styles.len() == 0 {
        Seq::empty()
    } else {
        variants_spec(styles.drop_last()) + "    "@ + upper_camel_of(styles.last()) + ",\n"@
    }
}

pub open spec fn lib_mid_a_spec() -> Seq<char> {
    "}\n\n/// The SVG path data for all styles of a particular icon.\n#[derive(Debug, Clone, Copy, PartialEq, Eq)]\npub struct IconStyleData(pub [&'static str; "@
}

pub open spec fn lib_mid_b_spec() -> Seq<char> {
    "]);\n\nimpl IconStyleData {\n    pub fn get(&self, style: IconStyle) -> &'static str {\n        match style {\n"@
}

/// One match arm per style, tying the variant to its array slot.
pub open spec fn arms_spec(styles: Seq<Seq<char>>) -> Seq<char>
    decreases styles.len(),
{
    if styles.len() == 0 {
        Seq::empty()
    } else {
        arms_spec(styles.drop_last()) + "            IconStyle::"@ + upper_camel_of(styles.last())
            + " => self.0["@ + digits_of((styles.len() - 1) as nat) + "],\n"@
    }
}

pub open spec fn lib_mid_c_spec() -> Seq<char> {
    "        }\n    }\n}\n\npub type IconData = &'static IconStyleData;\n\n#[component]\npub fn Icon(\n    icon: IconData,\n    #[prop(into, default = Signal::stored(IconStyle::"@
}

/// The style selector's default: the first style in the fixed ordering.
pub open spec fn default_variant_spec(styles: Seq<Seq<char>>) -> Seq<char> {
    if styles.len() == 0 {
        "Regular"@
    } else {
        upper_camel_of(styles[0])
    }
}

pub open spec fn lib_mid_d_spec() -> Seq<char> {
    "))] style: Signal<IconStyle>,\n    #[prop(into, default = TextProp::from(\"1em\"))] size: TextProp,\n    #[prop(into, default = TextProp::from(\"currentColor\"))] color: TextProp,\n    #[prop(into, default = Signal::stored(false))] mirrored: Signal<bool>,\n    #[prop(optional)] label: Option<&'static str>,\n) -> impl IntoView {\n    let html = move || icon.get(style.get());\n    let transform = move || mirrored.get().then_some(\"scale(-1, 1)\");\n    let height = size.clone();\n    let color_attr = color.clone();\n\n    view! {\n        <svg\n            xmlns=\"http://www.w3.org/2000/svg\"\n            role=\"img\"\n            aria-label=label.unwrap_or(\"\")\n            width=move || size.get()\n            height=move || height.get()\n            fill=move || color.get()\n            color=move || color_attr.get()\n            transform=transform\n            viewBox=\"0 0 "@
}

pub open spec fn lib_tail_spec() -> Seq<char> {
    "\"\n        >\n            { label.map(|l| view! { <title>{ l }</title> }) }\n            { move || html() }\n        </svg>\n    }\n}\n"@
}

/// The whole emitted library source for the given styles and canvas.
pub open spec fn lib_template_spec(styles: Seq<Seq<char>>, canvas: nat) -> Seq<char> {
    lib_head_spec() + variants_spec(styles) + lib_mid_a_spec() + digits_of(styles.len())
        + lib_mid_b_spec() + arms_spec(styles) + lib_mid_c_spec() + default_variant_spec(styles)
        + lib_mid_d_spec() + digits_of(canvas) + " "@ + digits_of(canvas) + lib_tail_spec()
}

/// The emitted library source: the style enum, the per-icon data type
/// with one slot per style, and the rendering component bound to the
/// shared canvas.
pub fn lib_template(styles: &Vec<String>, canvas_whole: u64) -> (r: String)
    ensures
        r@ == lib_template_spec(styles.deep_view(), canvas_whole as nat),
{
    let ghost sv = styles.deep_view();
    let mut out: Vec<char> = Vec::new();
    append_lit(
        &mut out,
        "//! Icon data: one constant per icon, one fragment per style, all\n//! rescaled onto the shared canvas.\n\nuse leptos::{prelude::*, text_prop::TextProp};\n\nmod icons;\npub use icons::*;\n\n/// An icon's style.\n#[derive(Debug, Clone, Copy, PartialEq, Eq)]\npub enum IconStyle {\n",
    );
    let ghost mark1 = out@;
    let mut k: usize = 0;
    proof {
        assert(sv.subrange(0, 0) =~= Seq::<Seq<char>>::empty());
        assert(out@ =~= mark1 + variants_spec(sv.subrange(0, 0)));
    }
    while k < styles.len()
        invariant
            0 <= k <= styles@.len(),
            sv == styles.deep_view(),
            sv.len() == styles@.len(),
            out@ == mark1 + variants_spec(sv.subrange(0, k as int)),
        decreases styles@.len() - k,
    {
        let ghost pre = sv.subrange(0, k as int);
        let ghost post = sv.subrange(0, k + 1 as int);
        proof {
            assert(post.drop_last() =~= pre);
            assert(post.last() == sv[k as int]);
            assert(sv[k as int] == styles@[k as int]@);
        }
        append_lit(&mut out, "    ");
        let camel = to_upper_camel(styles[k].as_str());
        append_lit(&mut out, camel.as_str());
        append_lit(&mut out, ",\n");
        assert(out@ =~= mark1 + variants_spec(post));
        k += 1;
    }
    proof {
        assert(sv.subrange(0, sv.len() as int) =~= sv);
    }
    append_lit(
        &mut out,
        "}\n\n/// The SVG path data for all styles of a particular icon.\n#[derive(Debug, Clone, Copy, PartialEq, Eq)]\npub struct IconStyleData(pub [&'static str; ",
    );
    push_digits(&mut out, styles.len() as u128);
    append_lit(
        &mut out,
        "]);\n\nimpl IconStyleData {\n    pub fn get(&self, style: IconStyle) -> &'static str {\n        match style {\n",
    );
    let ghost mark2 = out@;
    let mut k: usize = 0;
    proof {
        assert(sv.subrange(0, 0) =~= Seq::<Seq<char>>::empty());
        assert(out@ =~= mark2 + arms_spec(sv.subrange(0, 0)));
    }
    while k < styles.len()
        invariant
            0 <= k <= styles@.len(),
            sv == styles.deep_view(),
            sv.len() == styles@.len(),
            out@ == mark2 + arms_spec(sv.subrange(0, k as int)),
        decreases styles@.len() - k,
    {
        let ghost pre = sv.subrange(0, k as int);
        let ghost post = sv.subrange(0, k + 1 as int);
        proof {
            assert(post.drop_last() =~= pre);
            assert(post.last() == sv[k as int]);
            assert(sv[k as int] == styles@[k as int]@);
            assert(post.len() - 1 == k as int);
        }
        append_lit(&mut out, "            IconStyle::");
        let camel = to_upper_camel(styles[k].as_str());
        append_lit(&mut out, camel.as_str());
        append_lit(&mut out, " => self.0[");
        push_digits(&mut out, k as u128);
        append_lit(&mut out, "],\n");
        assert(out@ =~= mark2 + arms_spec(post));
        k += 1;
    }
    proof {
        assert(sv.subrange(0, sv.len() as int) =~= sv);
    }
    append_lit(
        &mut out,
        "        }\n    }\n}\n\npub type IconData = &'static IconStyleData;\n\n#[component]\npub fn Icon(\n    icon: IconData,\n    #[prop(into, default = Signal::stored(IconStyle::",
    );
    if styles.len() == 0 {
        append_lit(&mut out, "Regular");
    } else {
        proof {
            assert(sv[0] == styles@[0]@);
        }
        let camel = to_upper_camel(styles[0].as_str());
        append_lit(&mut out, camel.as_str());
    }
    append_lit(
        &mut out,
        "))] style: Signal<IconStyle>,\n    #[prop(into, default = TextProp::from(\"1em\"))] size: TextProp,\n    #[prop(into, default = TextProp::from(\"currentColor\"))] color: TextProp,\n    #[prop(into, default = Signal::stored(false))] mirrored: Signal<bool>,\n    #[prop(optional)] label: Option<&'static str>,\n) -> impl IntoView {\n    let html = move || icon.get(style.get());\n    let transform = move || mirrored.get().then_some(\"scale(-1, 1)\");\n    let height = size.clone();\n    let color_attr = color.clone();\n\n    view! {\n        <svg\n            xmlns=\"http://www.w3.org/2000/svg\"\n            role=\"img\"\n            aria-label=label.unwrap_or(\"\")\n            width=move || size.get()\n            height=move || height.get()\n            fill=move || color.get()\n            color=move || color_attr.get()\n            transform=transform\n            viewBox=\"0 0 ",
    );
    push_digits(&mut out, canvas_whole as u128);
    append_lit(&mut out, " ");
    push_digits(&mut out, canvas_whole as u128);
    append_lit(
        &mut out,
        "\"\n        >\n            { label.map(|l| view! { <title>{ l }</title> }) }\n            { move || html() }\n        </svg>\n    }\n}\n",
    );
    assert(out@ =~= lib_template_spec(sv, canvas_whole as nat));
    string_of(&out)
}

/// One icon's computed artifact: its name, its categories and its
/// style-indexed fragment array.
pub struct IconArtifact {
    pub name: String,
    pub categories: Vec<String>,
    pub fragments: Vec<String>,
}

/// One emitted file: where it goes and what it holds.
pub struct GeneratedFile {
    pub path: String,
    pub text: String,
}

/// Everything one generation run produces.
pub struct GenOutput {
    pub styles: Vec<String>,
    pub canvas: Decimal,
    pub categories: Vec<String>,
    pub icons: Vec<IconArtifact>,
    pub icon_files: Vec<GeneratedFile>,
    pub mod_index: String,
    pub lib_src: String,
    pub manifest: String,
}

/// One icon artifact is exactly what the tree, the mapping and the
/// canvas determine for its name.
pub open spec fn icon_ok(
    a: IconArtifact,
    tv: Seq<(Seq<char>, Seq<(Seq<char>, Option<Seq<char>>)>)>,
    styles: Seq<Seq<char>>,
    m: Seq<(Seq<char>, Seq<Seq<char>>)>,
    name: Seq<char>,
    canvas: Decimal,
) -> bool {
    &&& a.name@ == name
    &&& a.categories.deep_view() == categories_for_spec(m, name)
    &&& a.fragments.deep_view() == fragments_spec(tv, styles, name, canvas)
}

/// One emitted icon file is exactly the template for its name.
pub open spec fn icon_file_ok(
    f: GeneratedFile,
    tv: Seq<(Seq<char>, Seq<(Seq<char>, Option<Seq<char>>)>)>,
    styles: Seq<Seq<char>>,
    name: Seq<char>,
    canvas: Decimal,
) -> bool {
    &&& f.path@ == snake_of(name) + ".rs"@
    &&& f.text@ == icon_template_spec(name, fragments_spec(tv, styles, name, canvas))
}

/// The whole contract of one generation run over parsed taxonomy entries.
pub open spec fn generate_post(
    out: GenOutput,
    entries: Seq<(Seq<char>, Option<Seq<Option<Seq<char>>>>)>,
    tv: Seq<(Seq<char>, Seq<(Seq<char>, Option<Seq<char>>)>)>,
) -> bool {
    let m = mapping_of(entries);
    let styles = sort_lex_spec(style_names(tv));
    let names = icon_names_spec(tv);
    let canvas = canvas_spec(tv);
    &&& out.styles.deep_view() == styles
    &&& sorted_lex(out.styles.deep_view())
    &&& out.canvas == canvas
    &&& dec_wf(out.canvas)
    &&& out.categories.deep_view() == category_set_spec(entries)
    &&& strictly_sorted_lex(out.categories.deep_view())
    &&& out.icons@.len() == names.len()
    &&& strictly_sorted_lex(names)
    &&& forall|i: int|
        0 <= i < names.len() ==> icon_ok(#[trigger] out.icons@[i], tv, styles, m, names[i], canvas)
    &&& out.icon_files@.len() == names.len()
    &&& forall|i: int|
        0 <= i < names.len() ==> icon_file_ok(
            #[trigger] out.icon_files@[i],
            tv,
            styles,
            names[i],
            canvas,
        )
    &&& out.mod_index@ == mod_index_spec(m, names)
    &&& out.lib_src@ == lib_template_spec(styles, crate::num::dec_floor(canvas) as nat)
    &&& out.manifest@ == cargo_template_spec(category_set_spec(entries))
}

/// One whole generation run.  It succeeds exactly when the taxonomy
/// document is a single object; everything it emits is pinned, value by
/// value, to the taxonomy entries and the scanned tree, so two runs over
/// equal inputs emit identical artifacts.
pub fn generate(taxonomy_doc: &str, tree: &Vec<StyleDir>) -> (r: Option<GenOutput>)
    ensures
        r is Some <==> taxonomy_of(taxonomy_doc@, "sets"@) is Some,
        r matches Some(out) ==> generate_post(
            out,
            taxonomy_of(taxonomy_doc@, "sets"@)->Some_0,
            tree_view(tree@),
        ),
{
    let ghost tv = tree_view(tree@);
    let (mapping, categories) = match extract_categories(taxonomy_doc) {
        Some(p) => p,
        None => {
            return None;
        },
    };
    let ghost entries = taxonomy_of(taxonomy_doc@, "sets"@)->Some_0;
    let ghost m = mapping_view(mapping@);
    let styles = scan_styles(tree);
    let names = scan_icon_names(tree);
    let canvas = scan_canvas(tree);
    let ghost sv = styles.deep_view();
    let ghost nv = names.deep_view();

    let mut icons: Vec<IconArtifact> = Vec::new();
    let mut icon_files: Vec<GeneratedFile> = Vec::new();
    let mut index_text: Vec<char> = Vec::new();
    let mut i: usize = 0;
    proof {
        assert(nv.subrange(0, 0) =~= Seq::<Seq<char>>::empty());
        assert(index_text@ =~= mod_index_spec(m, nv.subrange(0, 0)));
    }
    while i < names.len()
        invariant
            0 <= i <= names@.len(),
            sv == styles.deep_view(),
            nv == names.deep_view(),
            nv.len() == names@.len(),
            m == mapping_view(mapping@),
            tv == tree_view(tree@),
            dec_wf(canvas),
            icons@.len() == i,
            icon_files@.len() == i,
            forall|k: int| 0 <= k < i ==> icon_ok(#[trigger] icons@[k], tv, sv, m, nv[k], canvas),
            forall|k: int|
                0 <= k < i ==> icon_file_ok(#[trigger] icon_files@[k], tv, sv, nv[k], canvas),
            index_text@ == mod_index_spec(m, nv.subrange(0, i as int)),
        decreases names@.len() - i,
    {
        let ghost npre = nv.subrange(0, i as int);
        let ghost npost = nv.subrange(0, i + 1 as int);
        proof {
            assert(npost.drop_last() =~= npre);
            assert(npost.last() == nv[i as int]);
            assert(nv[i as int] == names@[i as int]@);
        }
        let name = names[i].clone();
        let file_name = name.clone().concat(".svg");

        let mut fragments: Vec<String> = Vec::new();
        let mut s: usize = 0;
        proof {
            assert(fragments.deep_view() =~= fragments_spec(
                tv,
                sv.subrange(0, 0),
                name@,
                canvas,
            ));
        }
        while s < styles.len()
            invariant
                0 <= s <= styles@.len(),
                sv == styles.deep_view(),
                sv.len() == styles@.len(),
                tv == tree_view(tree@),
                dec_wf(canvas),
                name@ == nv[i as int],
                i < nv.len(),
                file_name@ == name@ + ".svg"@,
                fragments.deep_view() == fragments_spec(tv, sv.subrange(0, s as int), name@, canvas),
            decreases styles@.len() - s,
        {
            let ghost spre = sv.subrange(0, s as int);
            let ghost spost = sv.subrange(0, s + 1 as int);
            proof {
                assert(spost.drop_last() =~= spre);
                assert(spost.last() == sv[s as int]);
                assert(sv[s as int] == styles@[s as int]@);
            }
            proof {
                assert(fragments_spec(tv, spre, name@, canvas).len() == s);
                assert(fragments.deep_view().len() == s);
                assert(fragments@.len() == s);
            }
            let src = slot_source_x(tree, &styles[s], &file_name);
            let frag = normalize_svg(src.as_str(), &canvas);
            let ghost fragv = frag@;
            let ghost prevv = fragments@;
            let ghost prevdv = fragments.deep_view();
            fragments.push(frag);
            proof {
                assert(fragments@ == prevv.push(frag));
                assert(fragments@[s as int]@ == fragv);
                assert(fragv == spec_normalize_svg(slot_source(tv, sv[s as int], name@ + ".svg"@), canvas));
                assert(fragments.deep_view().len() == s + 1);
                assert(fragments_spec(tv, spost, name@, canvas).len() == s + 1);
                assert forall|k: int| 0 <= k < s + 1 implies fragments.deep_view()[k]
                    == fragments_spec(tv, spost, name@, canvas)[k] by {
                    assert(fragments.deep_view()[k] == fragments@[k]@);
                    assert(fragments_spec(tv, spost, name@, canvas)[k] == spec_normalize_svg(
                        slot_source(tv, spost[k], name@ + ".svg"@),
                        canvas,
                    ));
                    assert(spost[k] == sv[k]);
                    if k < s {
                        assert(spre[k] == sv[k]);
                        assert(prevdv[k] == fragments_spec(tv, spre, name@, canvas)[k]);
                        assert(fragments_spec(tv, spre, name@, canvas)[k] == spec_normalize_svg(
                            slot_source(tv, spre[k], name@ + ".svg"@),
                            canvas,
                        ));
                        assert(prevdv[k] == prevv[k]@);
                        assert(fragments@[k] == prevv[k]);
                    } else {
                        assert(fragments@[k]@ == fragv);
                    }
                }
                assert(fragments.deep_view() =~= fragments_spec(tv, spost, name@, canvas));
            }
            s += 1;
        }
        proof {
            assert(sv.subrange(0, sv.len() as int) =~= sv);
        }
        let cats = categories_for(&mapping, &name);
        let path = to_snake(name.as_str()).concat(".rs");
        let text = icon_template(name.as_str(), &fragments);
        let entry = mod_entry(name.as_str(), &cats);
        append_lit(&mut index_text, entry.as_str());
        assert(index_text@ =~= mod_index_spec(m, npost));
        let ghost frags_dv = fragments.deep_view();
        icons.push(IconArtifact { name, categories: cats, fragments });
        icon_files.push(GeneratedFile { path, text });
        proof {
            assert(icons@[i as int].fragments.deep_view() == frags_dv);
            assert(icon_ok(icons@[i as int], tv, sv, m, nv[i as int], canvas));
            assert(icon_file_ok(icon_files@[i as int], tv, sv, nv[i as int], canvas));
        }
        i += 1;
    }
    proof {
        assert(nv.subrange(0, nv.len() as int) =~= nv);
    }
    let mod_index = string_of(&index_text);
    let lib_src = lib_template(&styles, crate::num::dec_floor_x(&canvas));
    let manifest = cargo_template(&categories);
    Some(
        GenOutput {
            styles,
            canvas,
            categories,
            icons,
            icon_files,
            mod_index,
            lib_src,
            manifest,
        },
    )
}

/// Every icon's fragment array has exactly one slot per discovered
/// style: the style-count invariant.
pub proof fn lemma_style_count_invariant(
    out: GenOutput,
    entries: Seq<(Seq<char>, Option<Seq<Option<Seq<char>>>>)>,
    tv: Seq<(Seq<char>, Seq<(Seq<char>, Option<Seq<char>>)>)>,
)
    requires
        generate_post(out, entries, tv),
    ensures
        forall|i: int|
            0 <= i < out.icons@.len() ==> (#[trigger] out.icons@[i]).fragments.deep_view().len()
                == out.styles.deep_view().len(),
{
    let names = icon_names_spec(tv);
    assert forall|i: int|
        0 <= i < out.icons@.len() implies (#[trigger] out.icons@[i]).fragments.deep_view().len()
        == out.styles.deep_view().len() by {
        assert(icon_ok(out.icons@[i], tv, sort_lex_spec(style_names(tv)), mapping_of(entries), names[i], canvas_spec(tv)));
    }
}

/// An icon with no readable source file in a style carries the empty
/// fragment at exactly that style's slot, and generation has succeeded
/// all the same.
pub proof fn lemma_missing_slot_empty(
    out: GenOutput,
    entries: Seq<(Seq<char>, Option<Seq<Option<Seq<char>>>>)>,
    tv: Seq<(Seq<char>, Seq<(Seq<char>, Option<Seq<char>>)>)>,
    i: int,
    s: int,
)
    requires
        generate_post(out, entries, tv),
        0 <= i < out.icons@.len(),
        0 <= s < out.styles.deep_view().len(),
        slot_missing(tv, out.styles.deep_view()[s], out.icons@[i].name@ + ".svg"@),
    ensures
        out.icons@[i].fragments.deep_view()[s] == Seq::<char>::empty(),
{
    let styles = sort_lex_spec(style_names(tv));
    let names = icon_names_spec(tv);
    let canvas = canvas_spec(tv);
    assert(icon_ok(out.icons@[i], tv, styles, mapping_of(entries), names[i], canvas));
    assert(out.icons@[i].name@ == names[i]);
    assert(slot_source(tv, styles[s], names[i] + ".svg"@) == Seq::<char>::empty());
    crate::svg::lemma_normalize_empty(canvas);
    assert(out.icons@[i].fragments.deep_view()[s] == spec_normalize_svg(
        slot_source(tv, styles[s], names[i] + ".svg"@),
        canvas,
    ));
}

/// Two runs over equal inputs emit identical artifacts, byte for byte.
pub proof fn lemma_generate_deterministic(
    a: GenOutput,
    b: GenOutput,
    entries: Seq<(Seq<char>, Option<Seq<Option<Seq<char>>>>)>,
    tv: Seq<(Seq<char>, Seq<(Seq<char>, Option<Seq<char>>)>)>,
)
    requires
        generate_post(a, entries, tv),
        generate_post(b, entries, tv),
    ensures
        a.mod_index@ == b.mod_index@,
        a.lib_src@ == b.lib_src@,
        a.manifest@ == b.manifest@,
        a.styles.deep_view() == b.styles.deep_view(),
        a.categories.deep_view() == b.categories.deep_view(),
        a.icon_files@.len() == b.icon_files@.len(),
        forall|i: int|
            0 <= i < a.icon_files@.len() ==> (#[trigger] a.icon_files@[i]).path@
                == b.icon_files@[i].path@ && a.icon_files@[i].text@ == b.icon_files@[i].text@,
{
    let names = icon_names_spec(tv);
    let styles = sort_lex_spec(style_names(tv));
    let canvas = canvas_spec(tv);
    assert forall|i: int|
        0 <= i < a.icon_files@.len() implies (#[trigger] a.icon_files@[i]).path@
        == b.icon_files@[i].path@ && a.icon_files@[i].text@ == b.icon_files@[i].text@ by {
        assert(icon_file_ok(a.icon_files@[i], tv, styles, names[i], canvas));
        assert(icon_file_ok(b.icon_files@[i], tv, styles, names[i], canvas));
    }
}

/// An icon that no mapping row names falls back to exactly the
/// "uncategorized" category, and its gate is exactly that one flag.
pub proof fn lemma_uncategorized_fallback(
    m: Seq<(Seq<char>, Seq<Seq<char>>)>,
    name: Seq<char>,
)
    requires
        forall|k: int| 0 <= k < m.len() ==> (#[trigger] m[k]).0 != name,
    ensures
        categories_for_spec(m, name) == seq!["uncategorized"@],
        crate::templates::guard_spec(categories_for_spec(m, name)) == crate::templates::feature_test_spec("uncategorized"@),
    decreases m.len(),
{
    if m.len() > 0 {
        assert(m[0].0 != name);
        assert(forall|k: int|
            0 <= k < m.drop_first().len() ==> (#[trigger] m.drop_first()[k]).0 != name && m.drop_first()[k]
                == m[k + 1]);
        lemma_uncategorized_fallback(m.drop_first(), name);
    } else {
        assert(categories_for_spec(m, name) == seq!["uncategorized"@]);
        assert(seq!["uncategorized"@].len() == 1);
    }
}

/// A build selects an icon when any of its categories' flags is active.
pub open spec fn gate_active(cats: Seq<Seq<char>>, active: Set<Seq<char>>) -> bool {
    exists|k: int| 0 <= k < cats.len() && active.contains(#[trigger] cats[k])
}

/// Activating any single one of an icon's categories makes the icon
/// available: the any-of gate needs no second flag.
pub proof fn lemma_any_category_enables(cats: Seq<Seq<char>>, active: Set<Seq<char>>, k: int)
    requires
        0 <= k < cats.len(),
        active.contains(cats[k]),
    ensures
        gate_active(cats, active),
{
}

} // verus!
