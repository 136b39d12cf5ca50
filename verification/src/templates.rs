//! The emitted source artifacts as exact character sequences: the per-icon
//! constant file, the feature-gated module index entries, and the package
//! manifest.  Every template is a pure function of its inputs, so repeated
//! generation over unchanged inputs is byte-identical.

use vstd::prelude::*;
use crate::casing::{snake_of, to_snake, to_upper_snake, upper_snake_of};
use crate::num::{digits_of, push_digits};
use crate::strings::{chars_of, string_of};

verus! {

/// One character escaped for a double-quoted source string literal.
pub open spec fn esc_char(c: char) -> Seq<char> {
    if c == '\\' {
        seq!['\\', '\\']
    } else if c == '"' {
        seq!['\\', '"']
    } else {
        seq![c]
    }
}

/// A fragment escaped for embedding in a double-quoted string literal.
pub open spec fn escape_spec(s: Seq<char>) -> Seq<char>
    decreases s.len(),
{
    if s.len() == 0 {
        Seq::empty()
    } else {
        escape_spec(s.drop_last()) + esc_char(s.last())
    }
}

/// Appends `s` escaped for a double-quoted string literal.
fn push_escaped(out: &mut Vec<char>, s: &Vec<char>)
    ensures
        final(out)@ == old(out)@ + escape_spec(s@),
{
    let ghost base = out@;
    let mut i: usize = 0;
    proof {
        assert(s@.subrange(0, 0) =~= Seq::<char>::empty());
        assert(escape_spec(s@.subrange(0, 0)) =~= Seq::<char>::empty());
        assert(out@ =~= base + escape_spec(s@.subrange(0, 0)));
    }
    while i < s.len()
        invariant
            0 <= i <= s@.len(),
            out@ == base + escape_spec(s@.subrange(0, i as int)),
        decreases s@.len() - i,
    {
        let ghost pre = s@.subrange(0, i as int);
        let ghost post = s@.subrange(0, i + 1 as int);
        proof {
            assert(post.drop_last() =~= pre);
            assert(post.last() == s@[i as int]);
        }
        let c = s[i];
        if c == '\\' {
            out.push('\\');
            out.push('\\');
        } else if c == '"' {
            out.push('\\');
            out.push('"');
        } else {
            out.push(c);
        }
        assert(out@ =~= base + escape_spec(post));
        i += 1;
    }
    assert(s@.subrange(0, s@.len() as int) =~= s@);
}

/// One fragment as a quoted, escaped string literal.
pub open spec fn frag_item_spec(f: Seq<char>) -> Seq<char> {
    "\""@ + escape_spec(f) + "\""@
}

/// The fragment literals joined with a comma and a space.
pub open spec fn frag_list_spec(frags: Seq<Seq<char>>) -> Seq<char>
    decreases frags.len(),
{
    if frags.len() == 0 {
        Seq::empty()
    } else if frags.len() == 1 {
        frag_item_spec(frags[0])
    } else {
        frag_list_spec(frags.drop_last()) + ", "@ + frag_item_spec(frags.last())
    }
}

/// The whole per-icon source file: one constant binding the upper-snake
/// identifier of the icon's name to its fixed-length fragment array.
pub open spec fn icon_template_spec(name: Seq<char>, frags: Seq<Seq<char>>) -> Seq<char> {
    "pub const "@ + upper_snake_of(name) + ": &crate::IconStyleData = &crate::IconStyleData(["@
        + frag_list_spec(frags) + "]);\n"@
}

/// The source text of one icon's generated file.
pub fn icon_template(icon_name: &str, fragments: &Vec<String>) -> (r: String)
    ensures
        r@ == icon_template_spec(icon_name@, fragments.deep_view()),
{
    let ghost fv = fragments.deep_view();
    let mut out: Vec<char> = Vec::new();
    append_lit(&mut out, "pub const ");
    let upper = to_upper_snake(icon_name);
    append_lit(&mut out, upper.as_str());
    append_lit(&mut out, ": &crate::IconStyleData = &crate::IconStyleData([");

    let ghost mark3 = out@;
    let mut k: usize = 0;
    proof {
        assert(fv.subrange(0, 0) =~= Seq::<Seq<char>>::empty());
        assert(out@ =~= mark3 + frag_list_spec(fv.subrange(0, 0)));
    }
    while k < fragments.len()
        invariant
            0 <= k <= fragments@.len(),
            fv == fragments.deep_view(),
            fv.len() == fragments@.len(),
            out@ == mark3 + frag_list_spec(fv.subrange(0, k as int)),
        decreases fragments@.len() - k,
    {
        let ghost pre = fv.subrange(0, k as int);
        let ghost post = fv.subrange(0, k + 1 as int);
        proof {
            assert(post.drop_last() =~= pre);
            assert(post.last() == fv[k as int]);
            assert(fv[k as int] == fragments@[k as int]@);
        }
        if k > 0 {
            append_lit(&mut out, ", ");
        }
        append_lit(&mut out, "\"");
        let frag = chars_of(fragments[k].as_str());
        push_escaped(&mut out, &frag);
        append_lit(&mut out, "\"");
        assert(out@ =~= mark3 + frag_list_spec(post));
        k += 1;
    }
    assert(fv.subrange(0, fv.len() as int) =~= fv);

    append_lit(&mut out, "]);\n");
    assert(out@ =~= icon_template_spec(icon_name@, fv));
    string_of(&out)
}

/// One feature test: `feature = "label"`.
pub open spec fn feature_test_spec(label: Seq<char>) -> Seq<char> {
    "feature = \""@ + label + "\""@
}

/// The feature tests joined with a comma and a space.
pub open spec fn feature_tests_spec(cats: Seq<Seq<char>>) -> Seq<char>
    decreases cats.len(),
{
    if cats.len() == 0 {
        Seq::empty()
    } else if cats.len() == 1 {
        feature_test_spec(cats[0])
    } else {
        feature_tests_spec(cats.drop_last()) + ", "@ + feature_test_spec(cats.last())
    }
}

/// The condition under which an icon is compiled: one feature test when
/// it has one category, an any-of guard naming all of them otherwise.
pub open spec fn guard_spec(cats: Seq<Seq<char>>) -> Seq<char> {
    if cats.len() == 1 {
        feature_test_spec(cats[0])
    } else {
        "any("@ + feature_tests_spec(cats) + ")"@
    }
}

/// One icon's module index entry: the module and its re-export, each
/// compiled only when the icon's guard holds.
pub open spec fn mod_entry_spec(mod_name: Seq<char>, cats: Seq<Seq<char>>) -> Seq<char> {
    "#[cfg("@ + guard_spec(cats) + ")]\n#[doc(hidden)]\nmod "@ + mod_name + ";\n#[cfg("@
        + guard_spec(cats) + ")]\n#[doc(hidden)]\npub use "@ + mod_name + "::*;\n"@
}

/// Appends every character of `lit`.
pub(crate) fn append_lit(out: &mut Vec<char>, lit: &str)
    ensures
        final(out)@ == old(out)@ + lit@,
{
    let ghost base = out@;
    let v = chars_of(lit);
    let mut i: usize = 0;
    while i < v.len()
        invariant
            0 <= i <= v@.len(),
            v@ == lit@,
            out@ == base + v@.subrange(0, i as int),
        decreases v@.len() - i,
    {
        out.push(v[i]);
        assert(out@ =~= base + v@.subrange(0, i + 1 as int));
        i += 1;
    }
    assert(v@.subrange(0, v@.len() as int) =~= v@);
}

/// Appends the feature tests of `cats` joined with a comma and a space.
fn push_feature_tests(out: &mut Vec<char>, cats: &Vec<String>)
    ensures
        final(out)@ == old(out)@ + feature_tests_spec(cats.deep_view()),
{
    let ghost base = out@;
    let ghost cv = cats.deep_view();
    let mut k: usize = 0;
    proof {
        assert(cv.subrange(0, 0) =~= Seq::<Seq<char>>::empty());
        assert(out@ =~= base + feature_tests_spec(cv.subrange(0, 0)));
    }
    while k < cats.len()
        invariant
            0 <= k <= cats@.len(),
            cv == cats.deep_view(),
            cv.len() == cats@.len(),
            out@ == base + feature_tests_spec(cv.subrange(0, k as int)),
        decreases cats@.len() - k,
    {
        let ghost pre = cv.subrange(0, k as int);
        let ghost post = cv.subrange(0, k + 1 as int);
        proof {
            assert(post.drop_last() =~= pre);
            assert(post.last() == cv[k as int]);
            assert(cv[k as int] == cats@[k as int]@);
        }
        if k > 0 {
            append_lit(out, ", ");
        }
        append_lit(out, "feature = \"");
        append_lit(out, cats[k].as_str());
        append_lit(out, "\"");
        assert(out@ =~= base + feature_tests_spec(post));
        k += 1;
    }
    assert(cv.subrange(0, cv.len() as int) =~= cv);
}

/// Appends the icon's compilation condition.
fn push_guard(out: &mut Vec<char>, cats: &Vec<String>)
    ensures
        final(out)@ == old(out)@ + guard_spec(cats.deep_view()),
{
    if cats.len() == 1 {
        let ghost cv = cats.deep_view();
        append_lit(out, "feature = \"");
        append_lit(out, cats[0].as_str());
        append_lit(out, "\"");
        proof {
            assert(cv[0] == cats@[0]@);
        }
        assert(out@ =~= old(out)@ + guard_spec(cats.deep_view()));
    } else {
        append_lit(out, "any(");
        push_feature_tests(out, cats);
        append_lit(out, ")");
        assert(out@ =~= old(out)@ + guard_spec(cats.deep_view()));
    }
}

/// The module index entry of one icon.
pub fn mod_entry(icon_name: &str, cats: &Vec<String>) -> (r: String)
    ensures
        r@ == mod_entry_spec(snake_of(icon_name@), cats.deep_view()),
{
    let snake = to_snake(icon_name);
    let mut out: Vec<char> = Vec::new();
    append_lit(&mut out, "#[cfg(");
    push_guard(&mut out, cats);
    append_lit(&mut out, ")]\n#[doc(hidden)]\nmod ");
    append_lit(&mut out, snake.as_str());
    append_lit(&mut out, ";\n#[cfg(");
    push_guard(&mut out, cats);
    append_lit(&mut out, ")]\n#[doc(hidden)]\npub use ");
    append_lit(&mut out, snake.as_str());
    append_lit(&mut out, "::*;\n");
    assert(out@ =~= mod_entry_spec(snake_of(icon_name@), cats.deep_view()));
    string_of(&out)
}

/// One manifest line of the aggregate flag's list: a tab, the quoted label.
pub open spec fn all_item_spec(label: Seq<char>) -> Seq<char> {
    "\t\""@ + label + "\""@
}

/// The aggregate flag's list, its items joined with a comma and a newline.
pub open spec fn all_list_spec(feats: Seq<Seq<char>>) -> Seq<char>
    decreases feats.len(),
{
    if feats.len() == 0 {
        Seq::empty()
    } else if feats.len() == 1 {
        all_item_spec(feats[0])
    } else {
        all_list_spec(feats.drop_last()) + ",\n"@ + all_item_spec(feats.last())
    }
}

/// One empty flag declaration per category label.
pub open spec fn flag_lines_spec(feats: Seq<Seq<char>>) -> Seq<char>
    decreases feats.len(),
{
    if feats.len() == 0 {
        Seq::empty()
    } else {
        flag_lines_spec(feats.drop_last()) + feats.last() + " = []\n"@
    }
}

/// The fixed head of the emitted package manifest.
pub open spec fn manifest_head_spec() -> Seq<char> {
    "[package]\nname = \"lumo-icons\"\nversion = \"0.8.0\"\ndescription = \"Lumo icons for leptos\"\nauthors = [\"James <lumo.trade>\"]\nreadme = \"README.md\"\nrepository = \"https://github.com/cornfoo/lumo-icons\"\nkeywords = [\"icons\", \"leptos\", \"lumo\"]\nedition = \"2021\"\nlicense = \"MIT\"\nexclude = [\"/core\"]\n\n[dependencies]\nleptos = { version = \"0.7.8\", features = [\"csr\", \"nightly\"] }\nserde_json = \"1\"\n\n[workspace]\nmembers = [\"xtask\"]\n\n[features]\ndefault = [\"all\"]\n"@
}

/// The whole package manifest: the fixed head, the aggregate flag listing
/// every category, then one boolean flag per category.
pub open spec fn cargo_template_spec(feats: Seq<Seq<char>>) -> Seq<char> {
    manifest_head_spec() + "all = [\n"@ + all_list_spec(feats) + "\n]\n"@ + flag_lines_spec(feats)
}

/// The emitted package manifest for the given category labels: one
/// feature flag per category plus an aggregate flag that selects all of
/// them, active by default.
pub fn cargo_template(features: &Vec<String>) -> (r: String)
    ensures
        r@ == cargo_template_spec(features.deep_view()),
{
    let ghost fv = features.deep_view();
    let mut out: Vec<char> = Vec::new();
    append_lit(
        &mut out,
        "[package]\nname = \"lumo-icons\"\nversion = \"0.8.0\"\ndescription = \"Lumo icons for leptos\"\nauthors = [\"James <lumo.trade>\"]\nreadme = \"README.md\"\nrepository = \"https://github.com/cornfoo/lumo-icons\"\nkeywords = [\"icons\", \"leptos\", \"lumo\"]\nedition = \"2021\"\nlicense = \"MIT\"\nexclude = [\"/core\"]\n\n[dependencies]\nleptos = { version = \"0.7.8\", features = [\"csr\", \"nightly\"] }\nserde_json = \"1\"\n\n[workspace]\nmembers = [\"xtask\"]\n\n[features]\ndefault = [\"all\"]\n",
    );
    append_lit(&mut out, "all = [\n");
    let ghost mark1 = out@;
    let mut k: usize = 0;
    proof {
        assert(fv.subrange(0, 0) =~= Seq::<Seq<char>>::empty());
        assert(out@ =~= mark1 + all_list_spec(fv.subrange(0, 0)));
    }
    while k < features.len()
        invariant
            0 <= k <= features@.len(),
            fv == features.deep_view(),
            fv.len() == features@.len(),
            out@ == mark1 + all_list_spec(fv.subrange(0, k as int)),
        decreases features@.len() - k,
    {
        let ghost pre = fv.subrange(0, k as int);
        let ghost post = fv.subrange(0, k + 1 as int);
        proof {
            assert(post.drop_last() =~= pre);
            assert(post.last() == fv[k as int]);
            assert(fv[k as int] == features@[k as int]@);
        }
        if k > 0 {
            append_lit(&mut out, ",\n");
        }
        append_lit(&mut out, "\t\"");
        append_lit(&mut out, features[k].as_str());
        append_lit(&mut out, "\"");
        assert(out@ =~= mark1 + all_list_spec(post));
        k += 1;
    }
    proof {
        assert(fv.subrange(0, fv.len() as int) =~= fv);
    }
    append_lit(&mut out, "\n]\n");
    let ghost mark2 = out@;
    let mut k: usize = 0;
    proof {
        assert(fv.subrange(0, 0) =~= Seq::<Seq<char>>::empty());
        assert(out@ =~= mark2 + flag_lines_spec(fv.subrange(0, 0)));
    }
    while k < features.len()
        invariant
            0 <= k <= features@.len(),
            fv == features.deep_view(),
            fv.len() == features@.len(),
            out@ == mark2 + flag_lines_spec(fv.subrange(0, k as int)),
        decreases features@.len() - k,
    {
        let ghost pre = fv.subrange(0, k as int);
        let ghost post = fv.subrange(0, k + 1 as int);
        proof {
            assert(post.drop_last() =~= pre);
            assert(post.last() == fv[k as int]);
            assert(fv[k as int] == features@[k as int]@);
        }
        append_lit(&mut out, features[k].as_str());
        append_lit(&mut out, " = []\n");
        assert(out@ =~= mark2 + flag_lines_spec(post));
        k += 1;
    }
    proof {
        assert(fv.subrange(0, fv.len() as int) =~= fv);
    }
    assert(out@ =~= cargo_template_spec(fv));
    string_of(&out)
}

} // verus!
