//! Map a file path to a language id used later by the highlighter.

use vstd::prelude::*;
use crate::text::{chars_of, rfind_char, last_of, str_eq, string_of_range};

verus! {

/// The extension of `p`: what follows its last `'.'`; empty when `p` has no
/// `'.'`.
pub open spec fn ext_of(p: Seq<char>) -> Seq<char> {
    match last_of(p, '.') {
        Some(i) => p.skip(i + 1),
        None => Seq::empty(),
    }
}

/// The language id for an extension, if known.
pub open spec fn lang_for_ext(e: Seq<char>) -> Option<Seq<char>> {
    if e == "rs"@ {
        Some("rust"@)
    } else if e == "ts"@ {
        Some("typescript"@)
    } else if e == "tsx"@ {
        Some("tsx"@)
    } else if e == "js"@ {
        Some("javascript"@)
    } else if e == "mjs"@ {
        Some("javascript"@)
    } else if e == "cjs"@ {
        Some("javascript"@)
    } else if e == "jsx"@ {
        Some("jsx"@)
    } else if e == "py"@ {
        Some("python"@)
    } else if e == "go"@ {
        Some("go"@)
    } else if e == "c"@ {
        Some("c"@)
    } else if e == "h"@ {
        Some("c"@)
    } else if e == "cpp"@ {
        Some("cpp"@)
    } else if e == "cc"@ {
        Some("cpp"@)
    } else if e == "hpp"@ {
        Some("cpp"@)
    } else if e == "hh"@ {
        Some("cpp"@)
    } else if e == "json"@ {
        Some("json"@)
    } else if e == "toml"@ {
        Some("toml"@)
    } else if e == "yaml"@ {
        Some("yaml"@)
    } else if e == "yml"@ {
        Some("yaml"@)
    } else if e == "md"@ {
        Some("markdown"@)
    } else if e == "markdown"@ {
        Some("markdown"@)
    } else if e == "sh"@ {
        Some("bash"@)
    } else if e == "bash"@ {
        Some("bash"@)
    } else if e == "html"@ {
        Some("html"@)
    } else if e == "css"@ {
        Some("css"@)
    } else {
        None
    }
}

fn lang_name(e: &str) -> (r: Option<&'static str>)
    ensures
        match r {
            Some(l) => lang_for_ext(e@) == Some(l@),
            None => lang_for_ext(e@) is None,
        },
{
    if str_eq(e, "rs") {
        Some("rust")
    } else if str_eq(e, "ts") {
        Some("typescript")
    } else if str_eq(e, "tsx") {
        Some("tsx")
    } else if str_eq(e, "js") {
        Some("javascript")
    } else if str_eq(e, "mjs") {
        Some("javascript")
    } else if str_eq(e, "cjs") {
        Some("javascript")
    } else if str_eq(e, "jsx") {
        Some("jsx")
    } else if str_eq(e, "py") {
        Some("python")
    } else if str_eq(e, "go") {
        Some("go")
    } else if str_eq(e, "c") {
        Some("c")
    } else if str_eq(e, "h") {
        Some("c")
    } else if str_eq(e, "cpp") {
        Some("cpp")
    } else if str_eq(e, "cc") {
        Some("cpp")
    } else if str_eq(e, "hpp") {
        Some("cpp")
    } else if str_eq(e, "hh") {
        Some("cpp")
    } else if str_eq(e, "json") {
        Some("json")
    } else if str_eq(e, "toml") {
        Some("toml")
    } else if str_eq(e, "yaml") {
        Some("yaml")
    } else if str_eq(e, "yml") {
        Some("yaml")
    } else if str_eq(e, "md") {
        Some("markdown")
    } else if str_eq(e, "markdown") {
        Some("markdown")
    } else if str_eq(e, "sh") {
        Some("bash")
    } else if str_eq(e, "bash") {
        Some("bash")
    } else if str_eq(e, "html") {
        Some("html")
    } else if str_eq(e, "css") {
        Some("css")
    } else {
        None
    }
}

/// Best-effort language id from a path's extension. `None` when unknown.
pub fn detect(path: &str) -> (r: Option<String>)
    ensures
        crate::git::filter::opt_view(r) == lang_for_ext(ext_of(path@)),
{
    let cs = chars_of(path);
    let n = cs.len();
    let start = match rfind_char(cs.as_slice(), '.') {
        Some(i) => {
            assert(i < n);
            i + 1
        },
        None => n,
    };
    let ext = string_of_range(cs.as_slice(), start, cs.len());
    assert(ext@ == ext_of(path@)) by {
        assert(cs@.subrange(start as int, cs@.len() as int) =~= ext_of(path@));
    }
    match lang_name(ext.as_str()) {
        Some(l) => Some(String::from_str(l)),
        None => None,
    }
}

/// The extension of a path ending in `'.'` and a dot-free `e` is `e`,
/// whatever comes before; a dot-free path has no extension.
pub proof fn ext_law(base: Seq<char>, e: Seq<char>)
    requires
        forall|i: int| 0 <= i < e.len() ==> #[trigger] e[i] != '.',
    ensures
        ext_of(base.push('.') + e) == e,
        ext_of(e) == Seq::<char>::empty(),
{
    lemma_no_dot(e);
    let p = base.push('.') + e;
    lemma_last_dot(p, e.len() as int);
    assert(p.skip(base.len() + 1int) =~= e);
}

proof fn lemma_no_dot(p: Seq<char>)
    requires
        forall|i: int| 0 <= i < p.len() ==> #[trigger] p[i] != '.',
    ensures
        crate::text::last_of(p, '.') is None,
    decreases p.len(),
{
    if p.len() > 0 {
        lemma_no_dot(p.drop_last());
    }
}

proof fn lemma_last_dot(p: Seq<char>, k: int)
    requires
        0 <= k < p.len(),
        p[p.len() - 1 - k] == '.',
        forall|i: int| p.len() - k <= i < p.len() ==> #[trigger] p[i] != '.',
    ensures
        crate::text::last_of(p, '.') == Some(p.len() - 1 - k),
    decreases k,
{
    if k > 0 {
        lemma_last_dot(p.drop_last(), k - 1);
    }
}

/// The supported extensions and the language id each maps to; every other
/// extension is unknown (see [`detect`]).
pub proof fn extension_table_law()
    ensures
        lang_for_ext("rs"@) == Some("rust"@),
        lang_for_ext("ts"@) == Some("typescript"@),
        lang_for_ext("tsx"@) == Some("tsx"@),
        lang_for_ext("js"@) == Some("javascript"@),
        lang_for_ext("mjs"@) == Some("javascript"@),
        lang_for_ext("cjs"@) == Some("javascript"@),
        lang_for_ext("jsx"@) == Some("jsx"@),
        lang_for_ext("py"@) == Some("python"@),
        lang_for_ext("go"@) == Some("go"@),
        lang_for_ext("c"@) == Some("c"@),
        lang_for_ext("h"@) == Some("c"@),
        lang_for_ext("cpp"@) == Some("cpp"@),
        lang_for_ext("cc"@) == Some("cpp"@),
        lang_for_ext("hpp"@) == Some("cpp"@),
        lang_for_ext("hh"@) == Some("cpp"@),
        lang_for_ext("json"@) == Some("json"@),
        lang_for_ext("toml"@) == Some("toml"@),
        lang_for_ext("yaml"@) == Some("yaml"@),
        lang_for_ext("yml"@) == Some("yaml"@),
        lang_for_ext("md"@) == Some("markdown"@),
        lang_for_ext("markdown"@) == Some("markdown"@),
        lang_for_ext("sh"@) == Some("bash"@),
        lang_for_ext("bash"@) == Some("bash"@),
        lang_for_ext("html"@) == Some("html"@),
        lang_for_ext("css"@) == Some("css"@),
        lang_for_ext(""@) is None,
        lang_for_ext("txt"@) is None,
{
    assert(lang_for_ext("rs"@) == Some("rust"@)) by {
        reveal_strlit("rs");
        reveal_strlit("rust");
    }
    assert(lang_for_ext("ts"@) == Some("typescript"@)) by {
        reveal_strlit("ts");
        reveal_strlit("typescript");
        reveal_strlit("rs");
        assert("ts"@[0] != "rs"@[0]);
    }
    assert(lang_for_ext("tsx"@) == Some("tsx"@)) by {
        reveal_strlit("tsx");
        reveal_strlit("tsx");
        reveal_strlit("rs");
        reveal_strlit("ts");
        assert("tsx"@.len() != "rs"@.len());
        assert("tsx"@.len() != "ts"@.len());
    }
    assert(lang_for_ext("js"@) == Some("javascript"@)) by {
        reveal_strlit("js");
        reveal_strlit("javascript");
        reveal_strlit("rs");
        reveal_strlit("ts");
        reveal_strlit("tsx");
        assert("js"@[0] != "rs"@[0]);
        assert("js"@[0] != "ts"@[0]);
        assert("js"@.len() != "tsx"@.len());
    }
    assert(lang_for_ext("mjs"@) == Some("javascript"@)) by {
        reveal_strlit("mjs");
        reveal_strlit("javascript");
        reveal_strlit("rs");
        reveal_strlit("ts");
        reveal_strlit("tsx");
        reveal_strlit("js");
        assert("mjs"@.len() != "rs"@.len());
        assert("mjs"@.len() != "ts"@.len());
        assert("mjs"@[0] != "tsx"@[0]);
        assert("mjs"@.len() != "js"@.len());
    }
    assert(lang_for_ext("cjs"@) == Some("javascript"@)) by {
        reveal_strlit("cjs");
        reveal_strlit("javascript");
        reveal_strlit("rs");
        reveal_strlit("ts");
        reveal_strlit("tsx");
        reveal_strlit("js");
        reveal_strlit("mjs");
        assert("cjs"@.len() != "rs"@.len());
        assert("cjs"@.len() != "ts"@.len());
        assert("cjs"@[0] != "tsx"@[0]);
        assert("cjs"@.len() != "js"@.len());
        assert("cjs"@[0] != "mjs"@[0]);
    }
    assert(lang_for_ext("jsx"@) == Some("jsx"@)) by {
        reveal_strlit("jsx");
        reveal_strlit("jsx");
        reveal_strlit("rs");
        reveal_strlit("ts");
        reveal_strlit("tsx");
        reveal_strlit("js");
        reveal_strlit("mjs");
        reveal_strlit("cjs");
        assert("jsx"@.len() != "rs"@.len());
        assert("jsx"@.len() != "ts"@.len());
        assert("jsx"@[0] != "tsx"@[0]);
        assert("jsx"@.len() != "js"@.len());
        assert("jsx"@[0] != "mjs"@[0]);
        assert("jsx"@[0] != "cjs"@[0]);
    }
    assert(lang_for_ext("py"@) == Some("python"@)) by {
        reveal_strlit("py");
        reveal_strlit("python");
        reveal_strlit("rs");
        reveal_strlit("ts");
        reveal_strlit("tsx");
        reveal_strlit("js");
        reveal_strlit("mjs");
        reveal_strlit("cjs");
        reveal_strlit("jsx");
        assert("py"@[0] != "rs"@[0]);
        assert("py"@[0] != "ts"@[0]);
        assert("py"@.len() != "tsx"@.len());
        assert("py"@[0] != "js"@[0]);
        assert("py"@.len() != "mjs"@.len());
        assert("py"@.len() != "cjs"@.len());
        assert("py"@.len() != "jsx"@.len());
    }
    assert(lang_for_ext("go"@) == Some("go"@)) by {
        reveal_strlit("go");
        reveal_strlit("go");
        reveal_strlit("rs");
        reveal_strlit("ts");
        reveal_strlit("tsx");
        reveal_strlit("js");
        reveal_strlit("mjs");
        reveal_strlit("cjs");
        reveal_strlit("jsx");
        reveal_strlit("py");
        assert("go"@[0] != "rs"@[0]);
        assert("go"@[0] != "ts"@[0]);
        assert("go"@.len() != "tsx"@.len());
        assert("go"@[0] != "js"@[0]);
        assert("go"@.len() != "mjs"@.len());
        assert("go"@.len() != "cjs"@.len());
        assert("go"@.len() != "jsx"@.len());
        assert("go"@[0] != "py"@[0]);
    }
    assert(lang_for_ext("c"@) == Some("c"@)) by {
        reveal_strlit("c");
        reveal_strlit("c");
        reveal_strlit("rs");
        reveal_strlit("ts");
        reveal_strlit("tsx");
        reveal_strlit("js");
        reveal_strlit("mjs");
        reveal_strlit("cjs");
        reveal_strlit("jsx");
        reveal_strlit("py");
        reveal_strlit("go");
        assert("c"@.len() != "rs"@.len());
        assert("c"@.len() != "ts"@.len());
        assert("c"@.len() != "tsx"@.len());
        assert("c"@.len() != "js"@.len());
        assert("c"@.len() != "mjs"@.len());
        assert("c"@.len() != "cjs"@.len());
        assert("c"@.len() != "jsx"@.len());
        assert("c"@.len() != "py"@.len());
        assert("c"@.len() != "go"@.len());
    }
    assert(lang_for_ext("h"@) == Some("c"@)) by {
        reveal_strlit("h");
        reveal_strlit("c");
        reveal_strlit("rs");
        reveal_strlit("ts");
        reveal_strlit("tsx");
        reveal_strlit("js");
        reveal_strlit("mjs");
        reveal_strlit("cjs");
        reveal_strlit("jsx");
        reveal_strlit("py");
        reveal_strlit("go");
        reveal_strlit("c");
        assert("h"@.len() != "rs"@.len());
        assert("h"@.len() != "ts"@.len());
        assert("h"@.len() != "tsx"@.len());
        assert("h"@.len() != "js"@.len());
        assert("h"@.len() != "mjs"@.len());
        assert("h"@.len() != "cjs"@.len());
        assert("h"@.len() != "jsx"@.len());
        assert("h"@.len() != "py"@.len());
        assert("h"@.len() != "go"@.len());
        assert("h"@[0] != "c"@[0]);
    }
    assert(lang_for_ext("cpp"@) == Some("cpp"@)) by {
        reveal_strlit("cpp");
        reveal_strlit("cpp");
        reveal_strlit("rs");
        reveal_strlit("ts");
        reveal_strlit("tsx");
        reveal_strlit("js");
        reveal_strlit("mjs");
        reveal_strlit("cjs");
        reveal_strlit("jsx");
        reveal_strlit("py");
        reveal_strlit("go");
        reveal_strlit("c");
        reveal_strlit("h");
        assert("cpp"@.len() != "rs"@.len());
        assert("cpp"@.len() != "ts"@.len());
        assert("cpp"@[0] != "tsx"@[0]);
        assert("cpp"@.len() != "js"@.len());
        assert("cpp"@[0] != "mjs"@[0]);
        assert("cpp"@[1] != "cjs"@[1]);
        assert("cpp"@[0] != "jsx"@[0]);
        assert("cpp"@.len() != "py"@.len());
        assert("cpp"@.len() != "go"@.len());
        assert("cpp"@.len() != "c"@.len());
        assert("cpp"@.len() != "h"@.len());
    }
    assert(lang_for_ext("cc"@) == Some("cpp"@)) by {
        reveal_strlit("cc");
        reveal_strlit("cpp");
        reveal_strlit("rs");
        reveal_strlit("ts");
        reveal_strlit("tsx");
        reveal_strlit("js");
        reveal_strlit("mjs");
        reveal_strlit("cjs");
        reveal_strlit("jsx");
        reveal_strlit("py");
        reveal_strlit("go");
        reveal_strlit("c");
        reveal_strlit("h");
        reveal_strlit("cpp");
        assert("cc"@[0] != "rs"@[0]);
        assert("cc"@[0] != "ts"@[0]);
        assert("cc"@.len() != "tsx"@.len());
        assert("cc"@[0] != "js"@[0]);
        assert("cc"@.len() != "mjs"@.len());
        assert("cc"@.len() != "cjs"@.len());
        assert("cc"@.len() != "jsx"@.len());
        assert("cc"@[0] != "py"@[0]);
        assert("cc"@[0] != "go"@[0]);
        assert("cc"@.len() != "c"@.len());
        assert("cc"@.len() != "h"@.len());
        assert("cc"@.len() != "cpp"@.len());
    }
    assert(lang_for_ext("hpp"@) == Some("cpp"@)) by {
        reveal_strlit("hpp");
        reveal_strlit("cpp");
        reveal_strlit("rs");
        reveal_strlit("ts");
        reveal_strlit("tsx");
        reveal_strlit("js");
        reveal_strlit("mjs");
        reveal_strlit("cjs");
        reveal_strlit("jsx");
        reveal_strlit("py");
        reveal_strlit("go");
        reveal_strlit("c");
        reveal_strlit("h");
        reveal_strlit("cpp");
        reveal_strlit("cc");
        assert("hpp"@.len() != "rs"@.len());
        assert("hpp"@.len() != "ts"@.len());
        assert("hpp"@[0] != "tsx"@[0]);
        assert("hpp"@.len() != "js"@.len());
        assert("hpp"@[0] != "mjs"@[0]);
        assert("hpp"@[0] != "cjs"@[0]);
        assert("hpp"@[0] != "jsx"@[0]);
        assert("hpp"@.len() != "py"@.len());
        assert("hpp"@.len() != "go"@.len());
        assert("hpp"@.len() != "c"@.len());
        assert("hpp"@.len() != "h"@.len());
        assert("hpp"@[0] != "cpp"@[0]);
        assert("hpp"@.len() != "cc"@.len());
    }
    assert(lang_for_ext("hh"@) == Some("cpp"@)) by {
        reveal_strlit("hh");
        reveal_strlit("cpp");
        reveal_strlit("rs");
        reveal_strlit("ts");
        reveal_strlit("tsx");
        reveal_strlit("js");
        reveal_strlit("mjs");
        reveal_strlit("cjs");
        reveal_strlit("jsx");
        reveal_strlit("py");
        reveal_strlit("go");
        reveal_strlit("c");
        reveal_strlit("h");
        reveal_strlit("cpp");
        reveal_strlit("cc");
        reveal_strlit("hpp");
        assert("hh"@[0] != "rs"@[0]);
        assert("hh"@[0] != "ts"@[0]);
        assert("hh"@.len() != "tsx"@.len());
        assert("hh"@[0] != "js"@[0]);
        assert("hh"@.len() != "mjs"@.len());
        assert("hh"@.len() != "cjs"@.len());
        assert("hh"@.len() != "jsx"@.len());
        assert("hh"@[0] != "py"@[0]);
        assert("hh"@[0] != "go"@[0]);
        assert("hh"@.len() != "c"@.len());
        assert("hh"@.len() != "h"@.len());
        assert("hh"@.len() != "cpp"@.len());
        assert("hh"@[0] != "cc"@[0]);
        assert("hh"@.len() != "hpp"@.len());
    }
    assert(lang_for_ext("json"@) == Some("json"@)) by {
        reveal_strlit("json");
        reveal_strlit("json");
        reveal_strlit("rs");
        reveal_strlit("ts");
        reveal_strlit("tsx");
        reveal_strlit("js");
        reveal_strlit("mjs");
        reveal_strlit("cjs");
        reveal_strlit("jsx");
        reveal_strlit("py");
        reveal_strlit("go");
        reveal_strlit("c");
        reveal_strlit("h");
        reveal_strlit("cpp");
        reveal_strlit("cc");
        reveal_strlit("hpp");
        reveal_strlit("hh");
        assert("json"@.len() != "rs"@.len());
        assert("json"@.len() != "ts"@.len());
        assert("json"@.len() != "tsx"@.len());
        assert("json"@.len() != "js"@.len());
        assert("json"@.len() != "mjs"@.len());
        assert("json"@.len() != "cjs"@.len());
        assert("json"@.len() != "jsx"@.len());
        assert("json"@.len() != "py"@.len());
        assert("json"@.len() != "go"@.len());
        assert("json"@.len() != "c"@.len());
        assert("json"@.len() != "h"@.len());
        assert("json"@.len() != "cpp"@.len());
        assert("json"@.len() != "cc"@.len());
        assert("json"@.len() != "hpp"@.len());
        assert("json"@.len() != "hh"@.len());
    }
    assert(lang_for_ext("toml"@) == Some("toml"@)) by {
        reveal_strlit("toml");
        reveal_strlit("toml");
        reveal_strlit("rs");
        reveal_strlit("ts");
        reveal_strlit("tsx");
        reveal_strlit("js");
        reveal_strlit("mjs");
        reveal_strlit("cjs");
        reveal_strlit("jsx");
        reveal_strlit("py");
        reveal_strlit("go");
        reveal_strlit("c");
        reveal_strlit("h");
        reveal_strlit("cpp");
        reveal_strlit("cc");
        reveal_strlit("hpp");
        reveal_strlit("hh");
        reveal_strlit("json");
        assert("toml"@.len() != "rs"@.len());
        assert("toml"@.len() != "ts"@.len());
        assert("toml"@.len() != "tsx"@.len());
        assert("toml"@.len() != "js"@.len());
        assert("toml"@.len() != "mjs"@.len());
        assert("toml"@.len() != "cjs"@.len());
        assert("toml"@.len() != "jsx"@.len());
        assert("toml"@.len() != "py"@.len());
        assert("toml"@.len() != "go"@.len());
        assert("toml"@.len() != "c"@.len());
        assert("toml"@.len() != "h"@.len());
        assert("toml"@.len() != "cpp"@.len());
        assert("toml"@.len() != "cc"@.len());
        assert("toml"@.len() != "hpp"@.len());
        assert("toml"@.len() != "hh"@.len());
        assert("toml"@[0] != "json"@[0]);
    }
    assert(lang_for_ext("yaml"@) == Some("yaml"@)) by {
        reveal_strlit("yaml");
        reveal_strlit("yaml");
        reveal_strlit("rs");
        reveal_strlit("ts");
        reveal_strlit("tsx");
        reveal_strlit("js");
        reveal_strlit("mjs");
        reveal_strlit("cjs");
        reveal_strlit("jsx");
        reveal_strlit("py");
        reveal_strlit("go");
        reveal_strlit("c");
        reveal_strlit("h");
        reveal_strlit("cpp");
        reveal_strlit("cc");
        reveal_strlit("hpp");
        reveal_strlit("hh");
        reveal_strlit("json");
        reveal_strlit("toml");
        assert("yaml"@.len() != "rs"@.len());
        assert("yaml"@.len() != "ts"@.len());
        assert("yaml"@.len() != "tsx"@.len());
        assert("yaml"@.len() != "js"@.len());
        assert("yaml"@.len() != "mjs"@.len());
        assert("yaml"@.len() != "cjs"@.len());
        assert("yaml"@.len() != "jsx"@.len());
        assert("yaml"@.len() != "py"@.len());
        assert("yaml"@.len() != "go"@.len());
        assert("yaml"@.len() != "c"@.len());
        assert("yaml"@.len() != "h"@.len());
        assert("yaml"@.len() != "cpp"@.len());
        assert("yaml"@.len() != "cc"@.len());
        assert("yaml"@.len() != "hpp"@.len());
        assert("yaml"@.len() != "hh"@.len());
        assert("yaml"@[0] != "json"@[0]);
        assert("yaml"@[0] != "toml"@[0]);
    }
    assert(lang_for_ext("yml"@) == Some("yaml"@)) by {
        reveal_strlit("yml");
        reveal_strlit("yaml");
        reveal_strlit("rs");
        reveal_strlit("ts");
        reveal_strlit("tsx");
        reveal_strlit("js");
        reveal_strlit("mjs");
        reveal_strlit("cjs");
        reveal_strlit("jsx");
        reveal_strlit("py");
        reveal_strlit("go");
        reveal_strlit("c");
        reveal_strlit("h");
        reveal_strlit("cpp");
        reveal_strlit("cc");
        reveal_strlit("hpp");
        reveal_strlit("hh");
        reveal_strlit("json");
        reveal_strlit("toml");
        reveal_strlit("yaml");
        assert("yml"@.len() != "rs"@.len());
        assert("yml"@.len() != "ts"@.len());
        assert("yml"@[0] != "tsx"@[0]);
        assert("yml"@.len() != "js"@.len());
        assert("yml"@[0] != "mjs"@[0]);
        assert("yml"@[0] != "cjs"@[0]);
        assert("yml"@[0] != "jsx"@[0]);
        assert("yml"@.len() != "py"@.len());
        assert("yml"@.len() != "go"@.len());
        assert("yml"@.len() != "c"@.len());
        assert("yml"@.len() != "h"@.len());
        assert("yml"@[0] != "cpp"@[0]);
        assert("yml"@.len() != "cc"@.len());
        assert("yml"@[0] != "hpp"@[0]);
        assert("yml"@.len() != "hh"@.len());
        assert("yml"@.len() != "json"@.len());
        assert("yml"@.len() != "toml"@.len());
        assert("yml"@.len() != "yaml"@.len());
    }
    assert(lang_for_ext("md"@) == Some("markdown"@)) by {
        reveal_strlit("md");
        reveal_strlit("markdown");
        reveal_strlit("rs");
        reveal_strlit("ts");
        reveal_strlit("tsx");
        reveal_strlit("js");
        reveal_strlit("mjs");
        reveal_strlit("cjs");
        reveal_strlit("jsx");
        reveal_strlit("py");
        reveal_strlit("go");
        reveal_strlit("c");
        reveal_strlit("h");
        reveal_strlit("cpp");
        reveal_strlit("cc");
        reveal_strlit("hpp");
        reveal_strlit("hh");
        reveal_strlit("json");
        reveal_strlit("toml");
        reveal_strlit("yaml");
        reveal_strlit("yml");
        assert("md"@[0] != "rs"@[0]);
        assert("md"@[0] != "ts"@[0]);
        assert("md"@.len() != "tsx"@.len());
        assert("md"@[0] != "js"@[0]);
        assert("md"@.len() != "mjs"@.len());
        assert("md"@.len() != "cjs"@.len());
        assert("md"@.len() != "jsx"@.len());
        assert("md"@[0] != "py"@[0]);
        assert("md"@[0] != "go"@[0]);
        assert("md"@.len() != "c"@.len());
        assert("md"@.len() != "h"@.len());
        assert("md"@.len() != "cpp"@.len());
        assert("md"@[0] != "cc"@[0]);
        assert("md"@.len() != "hpp"@.len());
        assert("md"@[0] != "hh"@[0]);
        assert("md"@.len() != "json"@.len());
        assert("md"@.len() != "toml"@.len());
        assert("md"@.len() != "yaml"@.len());
        assert("md"@.len() != "yml"@.len());
    }
    assert(lang_for_ext("markdown"@) == Some("markdown"@)) by {
        reveal_strlit("markdown");
        reveal_strlit("markdown");
        reveal_strlit("rs");
        reveal_strlit("ts");
        reveal_strlit("tsx");
        reveal_strlit("js");
        reveal_strlit("mjs");
        reveal_strlit("cjs");
        reveal_strlit("jsx");
        reveal_strlit("py");
        reveal_strlit("go");
        reveal_strlit("c");
        reveal_strlit("h");
        reveal_strlit("cpp");
        reveal_strlit("cc");
        reveal_strlit("hpp");
        reveal_strlit("hh");
        reveal_strlit("json");
        reveal_strlit("toml");
        reveal_strlit("yaml");
        reveal_strlit("yml");
        reveal_strlit("md");
        assert("markdown"@.len() != "rs"@.len());
        assert("markdown"@.len() != "ts"@.len());
        assert("markdown"@.len() != "tsx"@.len());
        assert("markdown"@.len() != "js"@.len());
        assert("markdown"@.len() != "mjs"@.len());
        assert("markdown"@.len() != "cjs"@.len());
        assert("markdown"@.len() != "jsx"@.len());
        assert("markdown"@.len() != "py"@.len());
        assert("markdown"@.len() != "go"@.len());
        assert("markdown"@.len() != "c"@.len());
        assert("markdown"@.len() != "h"@.len());
        assert("markdown"@.len() != "cpp"@.len());
        assert("markdown"@.len() != "cc"@.len());
        assert("markdown"@.len() != "hpp"@.len());
        assert("markdown"@.len() != "hh"@.len());
        assert("markdown"@.len() != "json"@.len());
        assert("markdown"@.len() != "toml"@.len());
        assert("markdown"@.len() != "yaml"@.len());
        assert("markdown"@.len() != "yml"@.len());
        assert("markdown"@.len() != "md"@.len());
    }
    assert(lang_for_ext("sh"@) == Some("bash"@)) by {
        reveal_strlit("sh");
        reveal_strlit("bash");
        reveal_strlit("rs");
        reveal_strlit("ts");
        reveal_strlit("tsx");
        reveal_strlit("js");
        reveal_strlit("mjs");
        reveal_strlit("cjs");
        reveal_strlit("jsx");
        reveal_strlit("py");
        reveal_strlit("go");
        reveal_strlit("c");
        reveal_strlit("h");
        reveal_strlit("cpp");
        reveal_strlit("cc");
        reveal_strlit("hpp");
        reveal_strlit("hh");
        reveal_strlit("json");
        reveal_strlit("toml");
        reveal_strlit("yaml");
        reveal_strlit("yml");
        reveal_strlit("md");
        reveal_strlit("markdown");
        assert("sh"@[0] != "rs"@[0]);
        assert("sh"@[0] != "ts"@[0]);
        assert("sh"@.len() != "tsx"@.len());
        assert("sh"@[0] != "js"@[0]);
        assert("sh"@.len() != "mjs"@.len());
        assert("sh"@.len() != "cjs"@.len());
        assert("sh"@.len() != "jsx"@.len());
        assert("sh"@[0] != "py"@[0]);
        assert("sh"@[0] != "go"@[0]);
        assert("sh"@.len() != "c"@.len());
        assert("sh"@.len() != "h"@.len());
        assert("sh"@.len() != "cpp"@.len());
        assert("sh"@[0] != "cc"@[0]);
        assert("sh"@.len() != "hpp"@.len());
        assert("sh"@[0] != "hh"@[0]);
        assert("sh"@.len() != "json"@.len());
        assert("sh"@.len() != "toml"@.len());
        assert("sh"@.len() != "yaml"@.len());
        assert("sh"@.len() != "yml"@.len());
        assert("sh"@[0] != "md"@[0]);
        assert("sh"@.len() != "markdown"@.len());
    }
    assert(lang_for_ext("bash"@) == Some("bash"@)) by {
        reveal_strlit("bash");
        reveal_strlit("bash");
        reveal_strlit("rs");
        reveal_strlit("ts");
        reveal_strlit("tsx");
        reveal_strlit("js");
        reveal_strlit("mjs");
        reveal_strlit("cjs");
        reveal_strlit("jsx");
        reveal_strlit("py");
        reveal_strlit("go");
        reveal_strlit("c");
        reveal_strlit("h");
        reveal_strlit("cpp");
        reveal_strlit("cc");
        reveal_strlit("hpp");
        reveal_strlit("hh");
        reveal_strlit("json");
        reveal_strlit("toml");
        reveal_strlit("yaml");
        reveal_strlit("yml");
        reveal_strlit("md");
        reveal_strlit("markdown");
        reveal_strlit("sh");
        assert("bash"@.len() != "rs"@.len());
        assert("bash"@.len() != "ts"@.len());
        assert("bash"@.len() != "tsx"@.len());
        assert("bash"@.len() != "js"@.len());
        assert("bash"@.len() != "mjs"@.len());
        assert("bash"@.len() != "cjs"@.len());
        assert("bash"@.len() != "jsx"@.len());
        assert("bash"@.len() != "py"@.len());
        assert("bash"@.len() != "go"@.len());
        assert("bash"@.len() != "c"@.len());
        assert("bash"@.len() != "h"@.len());
        assert("bash"@.len() != "cpp"@.len());
        assert("bash"@.len() != "cc"@.len());
        assert("bash"@.len() != "hpp"@.len());
        assert("bash"@.len() != "hh"@.len());
        assert("bash"@[0] != "json"@[0]);
        assert("bash"@[0] != "toml"@[0]);
        assert("bash"@[0] != "yaml"@[0]);
        assert("bash"@.len() != "yml"@.len());
        assert("bash"@.len() != "md"@.len());
        assert("bash"@.len() != "markdown"@.len());
        assert("bash"@.len() != "sh"@.len());
    }
    assert(lang_for_ext("html"@) == Some("html"@)) by {
        reveal_strlit("html");
        reveal_strlit("html");
        reveal_strlit("rs");
        reveal_strlit("ts");
        reveal_strlit("tsx");
        reveal_strlit("js");
        reveal_strlit("mjs");
        reveal_strlit("cjs");
        reveal_strlit("jsx");
        reveal_strlit("py");
        reveal_strlit("go");
        reveal_strlit("c");
        reveal_strlit("h");
        reveal_strlit("cpp");
        reveal_strlit("cc");
        reveal_strlit("hpp");
        reveal_strlit("hh");
        reveal_strlit("json");
        reveal_strlit("toml");
        reveal_strlit("yaml");
        reveal_strlit("yml");
        reveal_strlit("md");
        reveal_strlit("markdown");
        reveal_strlit("sh");
        reveal_strlit("bash");
        assert("html"@.len() != "rs"@.len());
        assert("html"@.len() != "ts"@.len());
        assert("html"@.len() != "tsx"@.len());
        assert("html"@.len() != "js"@.len());
        assert("html"@.len() != "mjs"@.len());
        assert("html"@.len() != "cjs"@.len());
        assert("html"@.len() != "jsx"@.len());
        assert("html"@.len() != "py"@.len());
        assert("html"@.len() != "go"@.len());
        assert("html"@.len() != "c"@.len());
        assert("html"@.len() != "h"@.len());
        assert("html"@.len() != "cpp"@.len());
        assert("html"@.len() != "cc"@.len());
        assert("html"@.len() != "hpp"@.len());
        assert("html"@.len() != "hh"@.len());
        assert("html"@[0] != "json"@[0]);
        assert("html"@[0] != "toml"@[0]);
        assert("html"@[0] != "yaml"@[0]);
        assert("html"@.len() != "yml"@.len());
        assert("html"@.len() != "md"@.len());
        assert("html"@.len() != "markdown"@.len());
        assert("html"@.len() != "sh"@.len());
        assert("html"@[0] != "bash"@[0]);
    }
    assert(lang_for_ext("css"@) == Some("css"@)) by {
        reveal_strlit("css");
        reveal_strlit("css");
        reveal_strlit("rs");
        reveal_strlit("ts");
        reveal_strlit("tsx");
        reveal_strlit("js");
        reveal_strlit("mjs");
        reveal_strlit("cjs");
        reveal_strlit("jsx");
        reveal_strlit("py");
        reveal_strlit("go");
        reveal_strlit("c");
        reveal_strlit("h");
        reveal_strlit("cpp");
        reveal_strlit("cc");
        reveal_strlit("hpp");
        reveal_strlit("hh");
        reveal_strlit("json");
        reveal_strlit("toml");
        reveal_strlit("yaml");
        reveal_strlit("yml");
        reveal_strlit("md");
        reveal_strlit("markdown");
        reveal_strlit("sh");
        reveal_strlit("bash");
        reveal_strlit("html");
        assert("css"@.len() != "rs"@.len());
        assert("css"@.len() != "ts"@.len());
        assert("css"@[0] != "tsx"@[0]);
        assert("css"@.len() != "js"@.len());
        assert("css"@[0] != "mjs"@[0]);
        assert("css"@[1] != "cjs"@[1]);
        assert("css"@[0] != "jsx"@[0]);
        assert("css"@.len() != "py"@.len());
        assert("css"@.len() != "go"@.len());
        assert("css"@.len() != "c"@.len());
        assert("css"@.len() != "h"@.len());
        assert("css"@[1] != "cpp"@[1]);
        assert("css"@.len() != "cc"@.len());
        assert("css"@[0] != "hpp"@[0]);
        assert("css"@.len() != "hh"@.len());
        assert("css"@.len() != "json"@.len());
        assert("css"@.len() != "toml"@.len());
        assert("css"@.len() != "yaml"@.len());
        assert("css"@[0] != "yml"@[0]);
        assert("css"@.len() != "md"@.len());
        assert("css"@.len() != "markdown"@.len());
        assert("css"@.len() != "sh"@.len());
        assert("css"@.len() != "bash"@.len());
        assert("css"@.len() != "html"@.len());
    }
    assert(lang_for_ext(""@) is None) by {
        reveal_strlit("");
        reveal_strlit("rs");
        reveal_strlit("ts");
        reveal_strlit("tsx");
        reveal_strlit("js");
        reveal_strlit("mjs");
        reveal_strlit("cjs");
        reveal_strlit("jsx");
        reveal_strlit("py");
        reveal_strlit("go");
        reveal_strlit("c");
        reveal_strlit("h");
        reveal_strlit("cpp");
        reveal_strlit("cc");
        reveal_strlit("hpp");
        reveal_strlit("hh");
        reveal_strlit("json");
        reveal_strlit("toml");
        reveal_strlit("yaml");
        reveal_strlit("yml");
        reveal_strlit("md");
        reveal_strlit("markdown");
        reveal_strlit("sh");
        reveal_strlit("bash");
        reveal_strlit("html");
        reveal_strlit("css");
        assert(""@.len() != "rs"@.len());
        assert(""@.len() != "ts"@.len());
        assert(""@.len() != "tsx"@.len());
        assert(""@.len() != "js"@.len());
        assert(""@.len() != "mjs"@.len());
        assert(""@.len() != "cjs"@.len());
        assert(""@.len() != "jsx"@.len());
        assert(""@.len() != "py"@.len());
        assert(""@.len() != "go"@.len());
        assert(""@.len() != "c"@.len());
        assert(""@.len() != "h"@.len());
        assert(""@.len() != "cpp"@.len());
        assert(""@.len() != "cc"@.len());
        assert(""@.len() != "hpp"@.len());
        assert(""@.len() != "hh"@.len());
        assert(""@.len() != "json"@.len());
        assert(""@.len() != "toml"@.len());
        assert(""@.len() != "yaml"@.len());
        assert(""@.len() != "yml"@.len());
        assert(""@.len() != "md"@.len());
        assert(""@.len() != "markdown"@.len());
        assert(""@.len() != "sh"@.len());
        assert(""@.len() != "bash"@.len());
        assert(""@.len() != "html"@.len());
        assert(""@.len() != "css"@.len());
    }
    assert(lang_for_ext("txt"@) is None) by {
        reveal_strlit("txt");
        reveal_strlit("rs");
        reveal_strlit("ts");
        reveal_strlit("tsx");
        reveal_strlit("js");
        reveal_strlit("mjs");
        reveal_strlit("cjs");
        reveal_strlit("jsx");
        reveal_strlit("py");
        reveal_strlit("go");
        reveal_strlit("c");
        reveal_strlit("h");
        reveal_strlit("cpp");
        reveal_strlit("cc");
        reveal_strlit("hpp");
        reveal_strlit("hh");
        reveal_strlit("json");
        reveal_strlit("toml");
        reveal_strlit("yaml");
        reveal_strlit("yml");
        reveal_strlit("md");
        reveal_strlit("markdown");
        reveal_strlit("sh");
        reveal_strlit("bash");
        reveal_strlit("html");
        reveal_strlit("css");
        assert("txt"@.len() != "rs"@.len());
        assert("txt"@.len() != "ts"@.len());
        assert("txt"@[1] != "tsx"@[1]);
        assert("txt"@.len() != "js"@.len());
        assert("txt"@[0] != "mjs"@[0]);
        assert("txt"@[0] != "cjs"@[0]);
        assert("txt"@[0] != "jsx"@[0]);
        assert("txt"@.len() != "py"@.len());
        assert("txt"@.len() != "go"@.len());
        assert("txt"@.len() != "c"@.len());
        assert("txt"@.len() != "h"@.len());
        assert("txt"@[0] != "cpp"@[0]);
        assert("txt"@.len() != "cc"@.len());
        assert("txt"@[0] != "hpp"@[0]);
        assert("txt"@.len() != "hh"@.len());
        assert("txt"@.len() != "json"@.len());
        assert("txt"@.len() != "toml"@.len());
        assert("txt"@.len() != "yaml"@.len());
        assert("txt"@[0] != "yml"@[0]);
        assert("txt"@.len() != "md"@.len());
        assert("txt"@.len() != "markdown"@.len());
        assert("txt"@.len() != "sh"@.len());
        assert("txt"@.len() != "bash"@.len());
        assert("txt"@.len() != "html"@.len());
        assert("txt"@[0] != "css"@[0]);
    }
}

/// Any path ending in one of the supported extensions, whatever its
/// directories and base name, is detected as that extension's language.
pub proof fn detect_path_law(base: Seq<char>)
    ensures
        lang_for_ext(ext_of(base.push('.') + "rs"@)) == Some("rust"@),
        lang_for_ext(ext_of(base.push('.') + "ts"@)) == Some("typescript"@),
        lang_for_ext(ext_of(base.push('.') + "tsx"@)) == Some("tsx"@),
        lang_for_ext(ext_of(base.push('.') + "js"@)) == Some("javascript"@),
        lang_for_ext(ext_of(base.push('.') + "mjs"@)) == Some("javascript"@),
        lang_for_ext(ext_of(base.push('.') + "cjs"@)) == Some("javascript"@),
        lang_for_ext(ext_of(base.push('.') + "jsx"@)) == Some("jsx"@),
        lang_for_ext(ext_of(base.push('.') + "py"@)) == Some("python"@),
        lang_for_ext(ext_of(base.push('.') + "go"@)) == Some("go"@),
        lang_for_ext(ext_of(base.push('.') + "c"@)) == Some("c"@),
        lang_for_ext(ext_of(base.push('.') + "h"@)) == Some("c"@),
        lang_for_ext(ext_of(base.push('.') + "cpp"@)) == Some("cpp"@),
        lang_for_ext(ext_of(base.push('.') + "cc"@)) == Some("cpp"@),
        lang_for_ext(ext_of(base.push('.') + "hpp"@)) == Some("cpp"@),
        lang_for_ext(ext_of(base.push('.') + "hh"@)) == Some("cpp"@),
        lang_for_ext(ext_of(base.push('.') + "json"@)) == Some("json"@),
        lang_for_ext(ext_of(base.push('.') + "toml"@)) == Some("toml"@),
        lang_for_ext(ext_of(base.push('.') + "yaml"@)) == Some("yaml"@),
        lang_for_ext(ext_of(base.push('.') + "yml"@)) == Some("yaml"@),
        lang_for_ext(ext_of(base.push('.') + "md"@)) == Some("markdown"@),
        lang_for_ext(ext_of(base.push('.') + "markdown"@)) == Some("markdown"@),
        lang_for_ext(ext_of(base.push('.') + "sh"@)) == Some("bash"@),
        lang_for_ext(ext_of(base.push('.') + "bash"@)) == Some("bash"@),
        lang_for_ext(ext_of(base.push('.') + "html"@)) == Some("html"@),
        lang_for_ext(ext_of(base.push('.') + "css"@)) == Some("css"@),
{
    extension_table_law();
    reveal_strlit("rs");
    assert(forall|i: int| 0 <= i < "rs"@.len() ==> #[trigger] "rs"@[i] != '.');
    ext_law(base, "rs"@);
    reveal_strlit("ts");
    assert(forall|i: int| 0 <= i < "ts"@.len() ==> #[trigger] "ts"@[i] != '.');
    ext_law(base, "ts"@);
    reveal_strlit("tsx");
    assert(forall|i: int| 0 <= i < "tsx"@.len() ==> #[trigger] "tsx"@[i] != '.');
    ext_law(base, "tsx"@);
    reveal_strlit("js");
    assert(forall|i: int| 0 <= i < "js"@.len() ==> #[trigger] "js"@[i] != '.');
    ext_law(base, "js"@);
    reveal_strlit("mjs");
    assert(forall|i: int| 0 <= i < "mjs"@.len() ==> #[trigger] "mjs"@[i] != '.');
    ext_law(base, "mjs"@);
    reveal_strlit("cjs");
    assert(forall|i: int| 0 <= i < "cjs"@.len() ==> #[trigger] "cjs"@[i] != '.');
    ext_law(base, "cjs"@);
    reveal_strlit("jsx");
    assert(forall|i: int| 0 <= i < "jsx"@.len() ==> #[trigger] "jsx"@[i] != '.');
    ext_law(base, "jsx"@);
    reveal_strlit("py");
    assert(forall|i: int| 0 <= i < "py"@.len() ==> #[trigger] "py"@[i] != '.');
    ext_law(base, "py"@);
    reveal_strlit("go");
    assert(forall|i: int| 0 <= i < "go"@.len() ==> #[trigger] "go"@[i] != '.');
    ext_law(base, "go"@);
    reveal_strlit("c");
    assert(forall|i: int| 0 <= i < "c"@.len() ==> #[trigger] "c"@[i] != '.');
    ext_law(base, "c"@);
    reveal_strlit("h");
    assert(forall|i: int| 0 <= i < "h"@.len() ==> #[trigger] "h"@[i] != '.');
    ext_law(base, "h"@);
    reveal_strlit("cpp");
    assert(forall|i: int| 0 <= i < "cpp"@.len() ==> #[trigger] "cpp"@[i] != '.');
    ext_law(base, "cpp"@);
    reveal_strlit("cc");
    assert(forall|i: int| 0 <= i < "cc"@.len() ==> #[trigger] "cc"@[i] != '.');
    ext_law(base, "cc"@);
    reveal_strlit("hpp");
    assert(forall|i: int| 0 <= i < "hpp"@.len() ==> #[trigger] "hpp"@[i] != '.');
    ext_law(base, "hpp"@);
    reveal_strlit("hh");
    assert(forall|i: int| 0 <= i < "hh"@.len() ==> #[trigger] "hh"@[i] != '.');
    ext_law(base, "hh"@);
    reveal_strlit("json");
    assert(forall|i: int| 0 <= i < "json"@.len() ==> #[trigger] "json"@[i] != '.');
    ext_law(base, "json"@);
    reveal_strlit("toml");
    assert(forall|i: int| 0 <= i < "toml"@.len() ==> #[trigger] "toml"@[i] != '.');
    ext_law(base, "toml"@);
    reveal_strlit("yaml");
    assert(forall|i: int| 0 <= i < "yaml"@.len() ==> #[trigger] "yaml"@[i] != '.');
    ext_law(base, "yaml"@);
    reveal_strlit("yml");
    assert(forall|i: int| 0 <= i < "yml"@.len() ==> #[trigger] "yml"@[i] != '.');
    ext_law(base, "yml"@);
    reveal_strlit("md");
    assert(forall|i: int| 0 <= i < "md"@.len() ==> #[trigger] "md"@[i] != '.');
    ext_law(base, "md"@);
    reveal_strlit("markdown");
    assert(forall|i: int| 0 <= i < "markdown"@.len() ==> #[trigger] "markdown"@[i] != '.');
    ext_law(base, "markdown"@);
    reveal_strlit("sh");
    assert(forall|i: int| 0 <= i < "sh"@.len() ==> #[trigger] "sh"@[i] != '.');
    ext_law(base, "sh"@);
    reveal_strlit("bash");
    assert(forall|i: int| 0 <= i < "bash"@.len() ==> #[trigger] "bash"@[i] != '.');
    ext_law(base, "bash"@);
    reveal_strlit("html");
    assert(forall|i: int| 0 <= i < "html"@.len() ==> #[trigger] "html"@[i] != '.');
    ext_law(base, "html"@);
    reveal_strlit("css");
    assert(forall|i: int| 0 <= i < "css"@.len() ==> #[trigger] "css"@[i] != '.');
    ext_law(base, "css"@);
}

} // verus!
