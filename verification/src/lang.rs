//! Language detection from file extensions.

use vstd::prelude::*;
use crate::ir::Language;
use crate::path::{
    comp_of_piece, comps_of_pieces, components, extension, file_name, last_index_of, name_extension,
    path_extension, split_on, Comp,
};
use crate::text::{chars_of, chars_eq_str};

verus! {

/// The language a file extension belongs to.
pub open spec fn language_of_extension(e: Seq<char>) -> Option<Language> {
    if e == "ts"@ {
        Some(Language::TypeScript)
    }     else if e == "tsx"@ {
        Some(Language::TypeScript)
    }     else if e == "js"@ {
        Some(Language::TypeScript)
    }     else if e == "jsx"@ {
        Some(Language::TypeScript)
    }     else if e == "mjs"@ {
        Some(Language::TypeScript)
    }     else if e == "cjs"@ {
        Some(Language::TypeScript)
    }     else if e == "py"@ {
        Some(Language::Python)
    }     else if e == "pyi"@ {
        Some(Language::Python)
    }     else if e == "rs"@ {
        Some(Language::Rust)
    }     else if e == "go"@ {
        Some(Language::Go)
    }     else if e == "java"@ {
        Some(Language::Java)
    }     else if e == "kt"@ {
        Some(Language::Kotlin)
    }     else if e == "kts"@ {
        Some(Language::Kotlin)
    }     else if e == "cs"@ {
        Some(Language::CSharp)
    }     else if e == "swift"@ {
        Some(Language::Swift)
    }     else if e == "php"@ {
        Some(Language::PHP)
    }     else if e == "rb"@ {
        Some(Language::Ruby)
    }     else if e == "scala"@ {
        Some(Language::Scala)
    }     else if e == "sc"@ {
        Some(Language::Scala)
    }     else if e == "cpp"@ {
        Some(Language::Cpp)
    }     else if e == "cc"@ {
        Some(Language::Cpp)
    }     else if e == "cxx"@ {
        Some(Language::Cpp)
    }     else if e == "hpp"@ {
        Some(Language::Cpp)
    }     else if e == "hxx"@ {
        Some(Language::Cpp)
    }     else if e == "h"@ {
        Some(Language::Cpp)
    } else {
        None
    }
}

/// The language of a file, by the extension of its name.
pub open spec fn spec_detect_language(p: Seq<char>) -> Option<Language> {
    match extension(p) {
        Some(e) => language_of_extension(e),
        None => None,
    }
}

/// The extensions recognized for a language.
pub open spec fn language_extensions(l: Language) -> Seq<Seq<char>> {
    match l {
        Language::TypeScript => seq!["ts"@, "tsx"@, "js"@, "jsx"@, "mjs"@, "cjs"@],
        Language::Python => seq!["py"@, "pyi"@],
        Language::Rust => seq!["rs"@],
        Language::Go => seq!["go"@],
        Language::Java => seq!["java"@],
        Language::Kotlin => seq!["kt"@, "kts"@],
        Language::CSharp => seq!["cs"@],
        Language::Swift => seq!["swift"@],
        Language::PHP => seq!["php"@],
        Language::Ruby => seq!["rb"@],
        Language::Scala => seq!["scala"@, "sc"@],
        Language::Cpp => seq!["cpp"@, "cc"@, "cxx"@, "hpp"@, "hxx"@, "h"@],
    }
}

/// The supported languages, in their canonical order.
pub open spec fn spec_all_languages() -> Seq<Language> {
    seq![Language::TypeScript, Language::Python, Language::Rust, Language::Go, Language::Java, Language::Kotlin, Language::CSharp, Language::Swift, Language::PHP, Language::Ruby, Language::Scala, Language::Cpp]
}

/// Detect the programming language of a file by its extension.
/// Returns `None` for unsupported or extensionless files.
pub fn detect_language(path: &str) -> (r: Option<Language>)
    ensures
        r == spec_detect_language(path@),
{
    match path_extension(path) {
        None => None,
        Some(e) => {
            let v = chars_of(e.as_str());
            if chars_eq_str(&v, "ts") {
                Some(Language::TypeScript)
            }             else if chars_eq_str(&v, "tsx") {
                Some(Language::TypeScript)
            }             else if chars_eq_str(&v, "js") {
                Some(Language::TypeScript)
            }             else if chars_eq_str(&v, "jsx") {
                Some(Language::TypeScript)
            }             else if chars_eq_str(&v, "mjs") {
                Some(Language::TypeScript)
            }             else if chars_eq_str(&v, "cjs") {
                Some(Language::TypeScript)
            }             else if chars_eq_str(&v, "py") {
                Some(Language::Python)
            }             else if chars_eq_str(&v, "pyi") {
                Some(Language::Python)
            }             else if chars_eq_str(&v, "rs") {
                Some(Language::Rust)
            }             else if chars_eq_str(&v, "go") {
                Some(Language::Go)
            }             else if chars_eq_str(&v, "java") {
                Some(Language::Java)
            }             else if chars_eq_str(&v, "kt") {
                Some(Language::Kotlin)
            }             else if chars_eq_str(&v, "kts") {
                Some(Language::Kotlin)
            }             else if chars_eq_str(&v, "cs") {
                Some(Language::CSharp)
            }             else if chars_eq_str(&v, "swift") {
                Some(Language::Swift)
            }             else if chars_eq_str(&v, "php") {
                Some(Language::PHP)
            }             else if chars_eq_str(&v, "rb") {
                Some(Language::Ruby)
            }             else if chars_eq_str(&v, "scala") {
                Some(Language::Scala)
            }             else if chars_eq_str(&v, "sc") {
                Some(Language::Scala)
            }             else if chars_eq_str(&v, "cpp") {
                Some(Language::Cpp)
            }             else if chars_eq_str(&v, "cc") {
                Some(Language::Cpp)
            }             else if chars_eq_str(&v, "cxx") {
                Some(Language::Cpp)
            }             else if chars_eq_str(&v, "hpp") {
                Some(Language::Cpp)
            }             else if chars_eq_str(&v, "hxx") {
                Some(Language::Cpp)
            }             else if chars_eq_str(&v, "h") {
                Some(Language::Cpp)
            } else {
                None
            }
        },
    }
}

/// Returns all recognized file extensions for a language.
pub fn extensions_for(language: Language) -> (r: &'static [&'static str])
    ensures
        r@.map_values(|s: &str| s@) == language_extensions(language),
{
    match language {
        Language::TypeScript => {
            let r: &'static [&'static str] = &["ts", "tsx", "js", "jsx", "mjs", "cjs"];
            assert(r@.map_values(|s: &str| s@) =~= language_extensions(language));
            r
        },
        Language::Python => {
            let r: &'static [&'static str] = &["py", "pyi"];
            assert(r@.map_values(|s: &str| s@) =~= language_extensions(language));
            r
        },
        Language::Rust => {
            let r: &'static [&'static str] = &["rs"];
            assert(r@.map_values(|s: &str| s@) =~= language_extensions(language));
            r
        },
        Language::Go => {
            let r: &'static [&'static str] = &["go"];
            assert(r@.map_values(|s: &str| s@) =~= language_extensions(language));
            r
        },
        Language::Java => {
            let r: &'static [&'static str] = &["java"];
            assert(r@.map_values(|s: &str| s@) =~= language_extensions(language));
            r
        },
        Language::Kotlin => {
            let r: &'static [&'static str] = &["kt", "kts"];
            assert(r@.map_values(|s: &str| s@) =~= language_extensions(language));
            r
        },
        Language::CSharp => {
            let r: &'static [&'static str] = &["cs"];
            assert(r@.map_values(|s: &str| s@) =~= language_extensions(language));
            r
        },
        Language::Swift => {
            let r: &'static [&'static str] = &["swift"];
            assert(r@.map_values(|s: &str| s@) =~= language_extensions(language));
            r
        },
        Language::PHP => {
            let r: &'static [&'static str] = &["php"];
            assert(r@.map_values(|s: &str| s@) =~= language_extensions(language));
            r
        },
        Language::Ruby => {
            let r: &'static [&'static str] = &["rb"];
            assert(r@.map_values(|s: &str| s@) =~= language_extensions(language));
            r
        },
        Language::Scala => {
            let r: &'static [&'static str] = &["scala", "sc"];
            assert(r@.map_values(|s: &str| s@) =~= language_extensions(language));
            r
        },
        Language::Cpp => {
            let r: &'static [&'static str] = &["cpp", "cc", "cxx", "hpp", "hxx", "h"];
            assert(r@.map_values(|s: &str| s@) =~= language_extensions(language));
            r
        },
    }
}

/// Returns all supported languages.
pub fn all_languages() -> (r: &'static [Language])
    ensures
        r@ == spec_all_languages(),
{
    let r: &'static [Language] = &[Language::TypeScript, Language::Python, Language::Rust, Language::Go, Language::Java, Language::Kotlin, Language::CSharp, Language::Swift, Language::PHP, Language::Ruby, Language::Scala, Language::Cpp];
    assert(r@ =~= spec_all_languages());
    r
}

/// The extension `e` differs from every extension listed before it.
proof fn lemma_extension_distinct()
    ensures
        "tsx"@ != "ts"@,
        "js"@ != "ts"@,
        "js"@ != "tsx"@,
        "jsx"@ != "ts"@,
        "jsx"@ != "tsx"@,
        "jsx"@ != "js"@,
        "mjs"@ != "ts"@,
        "mjs"@ != "tsx"@,
        "mjs"@ != "js"@,
        "mjs"@ != "jsx"@,
        "cjs"@ != "ts"@,
        "cjs"@ != "tsx"@,
        "cjs"@ != "js"@,
        "cjs"@ != "jsx"@,
        "cjs"@ != "mjs"@,
        "py"@ != "ts"@,
        "py"@ != "tsx"@,
        "py"@ != "js"@,
        "py"@ != "jsx"@,
        "py"@ != "mjs"@,
        "py"@ != "cjs"@,
        "pyi"@ != "ts"@,
        "pyi"@ != "tsx"@,
        "pyi"@ != "js"@,
        "pyi"@ != "jsx"@,
        "pyi"@ != "mjs"@,
        "pyi"@ != "cjs"@,
        "pyi"@ != "py"@,
        "rs"@ != "ts"@,
        "rs"@ != "tsx"@,
        "rs"@ != "js"@,
        "rs"@ != "jsx"@,
        "rs"@ != "mjs"@,
        "rs"@ != "cjs"@,
        "rs"@ != "py"@,
        "rs"@ != "pyi"@,
        "go"@ != "ts"@,
        "go"@ != "tsx"@,
        "go"@ != "js"@,
        "go"@ != "jsx"@,
        "go"@ != "mjs"@,
        "go"@ != "cjs"@,
        "go"@ != "py"@,
        "go"@ != "pyi"@,
        "go"@ != "rs"@,
        "java"@ != "ts"@,
        "java"@ != "tsx"@,
        "java"@ != "js"@,
        "java"@ != "jsx"@,
        "java"@ != "mjs"@,
        "java"@ != "cjs"@,
        "java"@ != "py"@,
        "java"@ != "pyi"@,
        "java"@ != "rs"@,
        "java"@ != "go"@,
        "kt"@ != "ts"@,
        "kt"@ != "tsx"@,
        "kt"@ != "js"@,
        "kt"@ != "jsx"@,
        "kt"@ != "mjs"@,
        "kt"@ != "cjs"@,
        "kt"@ != "py"@,
        "kt"@ != "pyi"@,
        "kt"@ != "rs"@,
        "kt"@ != "go"@,
        "kt"@ != "java"@,
        "kts"@ != "ts"@,
        "kts"@ != "tsx"@,
        "kts"@ != "js"@,
        "kts"@ != "jsx"@,
        "kts"@ != "mjs"@,
        "kts"@ != "cjs"@,
        "kts"@ != "py"@,
        "kts"@ != "pyi"@,
        "kts"@ != "rs"@,
        "kts"@ != "go"@,
        "kts"@ != "java"@,
        "kts"@ != "kt"@,
        "cs"@ != "ts"@,
        "cs"@ != "tsx"@,
        "cs"@ != "js"@,
        "cs"@ != "jsx"@,
        "cs"@ != "mjs"@,
        "cs"@ != "cjs"@,
        "cs"@ != "py"@,
        "cs"@ != "pyi"@,
        "cs"@ != "rs"@,
        "cs"@ != "go"@,
        "cs"@ != "java"@,
        "cs"@ != "kt"@,
        "cs"@ != "kts"@,
        "swift"@ != "ts"@,
        "swift"@ != "tsx"@,
        "swift"@ != "js"@,
        "swift"@ != "jsx"@,
        "swift"@ != "mjs"@,
        "swift"@ != "cjs"@,
        "swift"@ != "py"@,
        "swift"@ != "pyi"@,
        "swift"@ != "rs"@,
        "swift"@ != "go"@,
        "swift"@ != "java"@,
        "swift"@ != "kt"@,
        "swift"@ != "kts"@,
        "swift"@ != "cs"@,
        "php"@ != "ts"@,
        "php"@ != "tsx"@,
        "php"@ != "js"@,
        "php"@ != "jsx"@,
        "php"@ != "mjs"@,
        "php"@ != "cjs"@,
        "php"@ != "py"@,
        "php"@ != "pyi"@,
        "php"@ != "rs"@,
        "php"@ != "go"@,
        "php"@ != "java"@,
        "php"@ != "kt"@,
        "php"@ != "kts"@,
        "php"@ != "cs"@,
        "php"@ != "swift"@,
        "rb"@ != "ts"@,
        "rb"@ != "tsx"@,
        "rb"@ != "js"@,
        "rb"@ != "jsx"@,
        "rb"@ != "mjs"@,
        "rb"@ != "cjs"@,
        "rb"@ != "py"@,
        "rb"@ != "pyi"@,
        "rb"@ != "rs"@,
        "rb"@ != "go"@,
        "rb"@ != "java"@,
        "rb"@ != "kt"@,
        "rb"@ != "kts"@,
        "rb"@ != "cs"@,
        "rb"@ != "swift"@,
        "rb"@ != "php"@,
        "scala"@ != "ts"@,
        "scala"@ != "tsx"@,
        "scala"@ != "js"@,
        "scala"@ != "jsx"@,
        "scala"@ != "mjs"@,
        "scala"@ != "cjs"@,
        "scala"@ != "py"@,
        "scala"@ != "pyi"@,
        "scala"@ != "rs"@,
        "scala"@ != "go"@,
        "scala"@ != "java"@,
        "scala"@ != "kt"@,
        "scala"@ != "kts"@,
        "scala"@ != "cs"@,
        "scala"@ != "swift"@,
        "scala"@ != "php"@,
        "scala"@ != "rb"@,
        "sc"@ != "ts"@,
        "sc"@ != "tsx"@,
        "sc"@ != "js"@,
        "sc"@ != "jsx"@,
        "sc"@ != "mjs"@,
        "sc"@ != "cjs"@,
        "sc"@ != "py"@,
        "sc"@ != "pyi"@,
        "sc"@ != "rs"@,
        "sc"@ != "go"@,
        "sc"@ != "java"@,
        "sc"@ != "kt"@,
        "sc"@ != "kts"@,
        "sc"@ != "cs"@,
        "sc"@ != "swift"@,
        "sc"@ != "php"@,
        "sc"@ != "rb"@,
        "sc"@ != "scala"@,
        "cpp"@ != "ts"@,
        "cpp"@ != "tsx"@,
        "cpp"@ != "js"@,
        "cpp"@ != "jsx"@,
        "cpp"@ != "mjs"@,
        "cpp"@ != "cjs"@,
        "cpp"@ != "py"@,
        "cpp"@ != "pyi"@,
        "cpp"@ != "rs"@,
        "cpp"@ != "go"@,
        "cpp"@ != "java"@,
        "cpp"@ != "kt"@,
        "cpp"@ != "kts"@,
        "cpp"@ != "cs"@,
        "cpp"@ != "swift"@,
        "cpp"@ != "php"@,
        "cpp"@ != "rb"@,
        "cpp"@ != "scala"@,
        "cpp"@ != "sc"@,
        "cc"@ != "ts"@,
        "cc"@ != "tsx"@,
        "cc"@ != "js"@,
        "cc"@ != "jsx"@,
        "cc"@ != "mjs"@,
        "cc"@ != "cjs"@,
        "cc"@ != "py"@,
        "cc"@ != "pyi"@,
        "cc"@ != "rs"@,
        "cc"@ != "go"@,
        "cc"@ != "java"@,
        "cc"@ != "kt"@,
        "cc"@ != "kts"@,
        "cc"@ != "cs"@,
        "cc"@ != "swift"@,
        "cc"@ != "php"@,
        "cc"@ != "rb"@,
        "cc"@ != "scala"@,
        "cc"@ != "sc"@,
        "cc"@ != "cpp"@,
        "cxx"@ != "ts"@,
        "cxx"@ != "tsx"@,
        "cxx"@ != "js"@,
        "cxx"@ != "jsx"@,
        "cxx"@ != "mjs"@,
        "cxx"@ != "cjs"@,
        "cxx"@ != "py"@,
        "cxx"@ != "pyi"@,
        "cxx"@ != "rs"@,
        "cxx"@ != "go"@,
        "cxx"@ != "java"@,
        "cxx"@ != "kt"@,
        "cxx"@ != "kts"@,
        "cxx"@ != "cs"@,
        "cxx"@ != "swift"@,
        "cxx"@ != "php"@,
        "cxx"@ != "rb"@,
        "cxx"@ != "scala"@,
        "cxx"@ != "sc"@,
        "cxx"@ != "cpp"@,
        "cxx"@ != "cc"@,
        "hpp"@ != "ts"@,
        "hpp"@ != "tsx"@,
        "hpp"@ != "js"@,
        "hpp"@ != "jsx"@,
        "hpp"@ != "mjs"@,
        "hpp"@ != "cjs"@,
        "hpp"@ != "py"@,
        "hpp"@ != "pyi"@,
        "hpp"@ != "rs"@,
        "hpp"@ != "go"@,
        "hpp"@ != "java"@,
        "hpp"@ != "kt"@,
        "hpp"@ != "kts"@,
        "hpp"@ != "cs"@,
        "hpp"@ != "swift"@,
        "hpp"@ != "php"@,
        "hpp"@ != "rb"@,
        "hpp"@ != "scala"@,
        "hpp"@ != "sc"@,
        "hpp"@ != "cpp"@,
        "hpp"@ != "cc"@,
        "hpp"@ != "cxx"@,
        "hxx"@ != "ts"@,
        "hxx"@ != "tsx"@,
        "hxx"@ != "js"@,
        "hxx"@ != "jsx"@,
        "hxx"@ != "mjs"@,
        "hxx"@ != "cjs"@,
        "hxx"@ != "py"@,
        "hxx"@ != "pyi"@,
        "hxx"@ != "rs"@,
        "hxx"@ != "go"@,
        "hxx"@ != "java"@,
        "hxx"@ != "kt"@,
        "hxx"@ != "kts"@,
        "hxx"@ != "cs"@,
        "hxx"@ != "swift"@,
        "hxx"@ != "php"@,
        "hxx"@ != "rb"@,
        "hxx"@ != "scala"@,
        "hxx"@ != "sc"@,
        "hxx"@ != "cpp"@,
        "hxx"@ != "cc"@,
        "hxx"@ != "cxx"@,
        "hxx"@ != "hpp"@,
        "h"@ != "ts"@,
        "h"@ != "tsx"@,
        "h"@ != "js"@,
        "h"@ != "jsx"@,
        "h"@ != "mjs"@,
        "h"@ != "cjs"@,
        "h"@ != "py"@,
        "h"@ != "pyi"@,
        "h"@ != "rs"@,
        "h"@ != "go"@,
        "h"@ != "java"@,
        "h"@ != "kt"@,
        "h"@ != "kts"@,
        "h"@ != "cs"@,
        "h"@ != "swift"@,
        "h"@ != "php"@,
        "h"@ != "rb"@,
        "h"@ != "scala"@,
        "h"@ != "sc"@,
        "h"@ != "cpp"@,
        "h"@ != "cc"@,
        "h"@ != "cxx"@,
        "h"@ != "hpp"@,
        "h"@ != "hxx"@,
{
    reveal_strlit("ts");
    reveal_strlit("tsx");
    reveal_strlit("js");
    reveal_strlit("jsx");
    reveal_strlit("mjs");
    reveal_strlit("cjs");
    reveal_strlit("py");
    reveal_strlit("pyi");
    reveal_strlit("rs");
    reveal_strlit("go");
    reveal_strlit("java");
    reveal_strlit("kt");
    reveal_strlit("kts");
    reveal_strlit("cs");
    reveal_strlit("swift");
    reveal_strlit("php");
    reveal_strlit("rb");
    reveal_strlit("scala");
    reveal_strlit("sc");
    reveal_strlit("cpp");
    reveal_strlit("cc");
    reveal_strlit("cxx");
    reveal_strlit("hpp");
    reveal_strlit("hxx");
    reveal_strlit("h");
    assert("tsx"@.len() != "ts"@.len());
    assert("js"@[0] != "ts"@[0]);
    assert("js"@.len() != "tsx"@.len());
    assert("jsx"@.len() != "ts"@.len());
    assert("jsx"@[0] != "tsx"@[0]);
    assert("jsx"@.len() != "js"@.len());
    assert("mjs"@.len() != "ts"@.len());
    assert("mjs"@[0] != "tsx"@[0]);
    assert("mjs"@.len() != "js"@.len());
    assert("mjs"@[0] != "jsx"@[0]);
    assert("cjs"@.len() != "ts"@.len());
    assert("cjs"@[0] != "tsx"@[0]);
    assert("cjs"@.len() != "js"@.len());
    assert("cjs"@[0] != "jsx"@[0]);
    assert("cjs"@[0] != "mjs"@[0]);
    assert("py"@[0] != "ts"@[0]);
    assert("py"@.len() != "tsx"@.len());
    assert("py"@[0] != "js"@[0]);
    assert("py"@.len() != "jsx"@.len());
    assert("py"@.len() != "mjs"@.len());
    assert("py"@.len() != "cjs"@.len());
    assert("pyi"@.len() != "ts"@.len());
    assert("pyi"@[0] != "tsx"@[0]);
    assert("pyi"@.len() != "js"@.len());
    assert("pyi"@[0] != "jsx"@[0]);
    assert("pyi"@[0] != "mjs"@[0]);
    assert("pyi"@[0] != "cjs"@[0]);
    assert("pyi"@.len() != "py"@.len());
    assert("rs"@[0] != "ts"@[0]);
    assert("rs"@.len() != "tsx"@.len());
    assert("rs"@[0] != "js"@[0]);
    assert("rs"@.len() != "jsx"@.len());
    assert("rs"@.len() != "mjs"@.len());
    assert("rs"@.len() != "cjs"@.len());
    assert("rs"@[0] != "py"@[0]);
    assert("rs"@.len() != "pyi"@.len());
    assert("go"@[0] != "ts"@[0]);
    assert("go"@.len() != "tsx"@.len());
    assert("go"@[0] != "js"@[0]);
    assert("go"@.len() != "jsx"@.len());
    assert("go"@.len() != "mjs"@.len());
    assert("go"@.len() != "cjs"@.len());
    assert("go"@[0] != "py"@[0]);
    assert("go"@.len() != "pyi"@.len());
    assert("go"@[0] != "rs"@[0]);
    assert("java"@.len() != "ts"@.len());
    assert("java"@.len() != "tsx"@.len());
    assert("java"@.len() != "js"@.len());
    assert("java"@.len() != "jsx"@.len());
    assert("java"@.len() != "mjs"@.len());
    assert("java"@.len() != "cjs"@.len());
    assert("java"@.len() != "py"@.len());
    assert("java"@.len() != "pyi"@.len());
    assert("java"@.len() != "rs"@.len());
    assert("java"@.len() != "go"@.len());
    assert("kt"@[0] != "ts"@[0]);
    assert("kt"@.len() != "tsx"@.len());
    assert("kt"@[0] != "js"@[0]);
    assert("kt"@.len() != "jsx"@.len());
    assert("kt"@.len() != "mjs"@.len());
    assert("kt"@.len() != "cjs"@.len());
    assert("kt"@[0] != "py"@[0]);
    assert("kt"@.len() != "pyi"@.len());
    assert("kt"@[0] != "rs"@[0]);
    assert("kt"@[0] != "go"@[0]);
    assert("kt"@.len() != "java"@.len());
    assert("kts"@.len() != "ts"@.len());
    assert("kts"@[0] != "tsx"@[0]);
    assert("kts"@.len() != "js"@.len());
    assert("kts"@[0] != "jsx"@[0]);
    assert("kts"@[0] != "mjs"@[0]);
    assert("kts"@[0] != "cjs"@[0]);
    assert("kts"@.len() != "py"@.len());
    assert("kts"@[0] != "pyi"@[0]);
    assert("kts"@.len() != "rs"@.len());
    assert("kts"@.len() != "go"@.len());
    assert("kts"@.len() != "java"@.len());
    assert("kts"@.len() != "kt"@.len());
    assert("cs"@[0] != "ts"@[0]);
    assert("cs"@.len() != "tsx"@.len());
    assert("cs"@[0] != "js"@[0]);
    assert("cs"@.len() != "jsx"@.len());
    assert("cs"@.len() != "mjs"@.len());
    assert("cs"@.len() != "cjs"@.len());
    assert("cs"@[0] != "py"@[0]);
    assert("cs"@.len() != "pyi"@.len());
    assert("cs"@[0] != "rs"@[0]);
    assert("cs"@[0] != "go"@[0]);
    assert("cs"@.len() != "java"@.len());
    assert("cs"@[0] != "kt"@[0]);
    assert("cs"@.len() != "kts"@.len());
    assert("swift"@.len() != "ts"@.len());
    assert("swift"@.len() != "tsx"@.len());
    assert("swift"@.len() != "js"@.len());
    assert("swift"@.len() != "jsx"@.len());
    assert("swift"@.len() != "mjs"@.len());
    assert("swift"@.len() != "cjs"@.len());
    assert("swift"@.len() != "py"@.len());
    assert("swift"@.len() != "pyi"@.len());
    assert("swift"@.len() != "rs"@.len());
    assert("swift"@.len() != "go"@.len());
    assert("swift"@.len() != "java"@.len());
    assert("swift"@.len() != "kt"@.len());
    assert("swift"@.len() != "kts"@.len());
    assert("swift"@.len() != "cs"@.len());
    assert("php"@.len() != "ts"@.len());
    assert("php"@[0] != "tsx"@[0]);
    assert("php"@.len() != "js"@.len());
    assert("php"@[0] != "jsx"@[0]);
    assert("php"@[0] != "mjs"@[0]);
    assert("php"@[0] != "cjs"@[0]);
    assert("php"@.len() != "py"@.len());
    assert("php"@[1] != "pyi"@[1]);
    assert("php"@.len() != "rs"@.len());
    assert("php"@.len() != "go"@.len());
    assert("php"@.len() != "java"@.len());
    assert("php"@.len() != "kt"@.len());
    assert("php"@[0] != "kts"@[0]);
    assert("php"@.len() != "cs"@.len());
    assert("php"@.len() != "swift"@.len());
    assert("rb"@[0] != "ts"@[0]);
    assert("rb"@.len() != "tsx"@.len());
    assert("rb"@[0] != "js"@[0]);
    assert("rb"@.len() != "jsx"@.len());
    assert("rb"@.len() != "mjs"@.len());
    assert("rb"@.len() != "cjs"@.len());
    assert("rb"@[0] != "py"@[0]);
    assert("rb"@.len() != "pyi"@.len());
    assert("rb"@[1] != "rs"@[1]);
    assert("rb"@[0] != "go"@[0]);
    assert("rb"@.len() != "java"@.len());
    assert("rb"@[0] != "kt"@[0]);
    assert("rb"@.len() != "kts"@.len());
    assert("rb"@[0] != "cs"@[0]);
    assert("rb"@.len() != "swift"@.len());
    assert("rb"@.len() != "php"@.len());
    assert("scala"@.len() != "ts"@.len());
    assert("scala"@.len() != "tsx"@.len());
    assert("scala"@.len() != "js"@.len());
    assert("scala"@.len() != "jsx"@.len());
    assert("scala"@.len() != "mjs"@.len());
    assert("scala"@.len() != "cjs"@.len());
    assert("scala"@.len() != "py"@.len());
    assert("scala"@.len() != "pyi"@.len());
    assert("scala"@.len() != "rs"@.len());
    assert("scala"@.len() != "go"@.len());
    assert("scala"@.len() != "java"@.len());
    assert("scala"@.len() != "kt"@.len());
    assert("scala"@.len() != "kts"@.len());
    assert("scala"@.len() != "cs"@.len());
    assert("scala"@[1] != "swift"@[1]);
    assert("scala"@.len() != "php"@.len());
    assert("scala"@.len() != "rb"@.len());
    assert("sc"@[0] != "ts"@[0]);
    assert("sc"@.len() != "tsx"@.len());
    assert("sc"@[0] != "js"@[0]);
    assert("sc"@.len() != "jsx"@.len());
    assert("sc"@.len() != "mjs"@.len());
    assert("sc"@.len() != "cjs"@.len());
    assert("sc"@[0] != "py"@[0]);
    assert("sc"@.len() != "pyi"@.len());
    assert("sc"@[0] != "rs"@[0]);
    assert("sc"@[0] != "go"@[0]);
    assert("sc"@.len() != "java"@.len());
    assert("sc"@[0] != "kt"@[0]);
    assert("sc"@.len() != "kts"@.len());
    assert("sc"@[0] != "cs"@[0]);
    assert("sc"@.len() != "swift"@.len());
    assert("sc"@.len() != "php"@.len());
    assert("sc"@[0] != "rb"@[0]);
    assert("sc"@.len() != "scala"@.len());
    assert("cpp"@.len() != "ts"@.len());
    assert("cpp"@[0] != "tsx"@[0]);
    assert("cpp"@.len() != "js"@.len());
    assert("cpp"@[0] != "jsx"@[0]);
    assert("cpp"@[0] != "mjs"@[0]);
    assert("cpp"@[1] != "cjs"@[1]);
    assert("cpp"@.len() != "py"@.len());
    assert("cpp"@[0] != "pyi"@[0]);
    assert("cpp"@.len() != "rs"@.len());
    assert("cpp"@.len() != "go"@.len());
    assert("cpp"@.len() != "java"@.len());
    assert("cpp"@.len() != "kt"@.len());
    assert("cpp"@[0] != "kts"@[0]);
    assert("cpp"@.len() != "cs"@.len());
    assert("cpp"@.len() != "swift"@.len());
    assert("cpp"@[0] != "php"@[0]);
    assert("cpp"@.len() != "rb"@.len());
    assert("cpp"@.len() != "scala"@.len());
    assert("cpp"@.len() != "sc"@.len());
    assert("cc"@[0] != "ts"@[0]);
    assert("cc"@.len() != "tsx"@.len());
    assert("cc"@[0] != "js"@[0]);
    assert("cc"@.len() != "jsx"@.len());
    assert("cc"@.len() != "mjs"@.len());
    assert("cc"@.len() != "cjs"@.len());
    assert("cc"@[0] != "py"@[0]);
    assert("cc"@.len() != "pyi"@.len());
    assert("cc"@[0] != "rs"@[0]);
    assert("cc"@[0] != "go"@[0]);
    assert("cc"@.len() != "java"@.len());
    assert("cc"@[0] != "kt"@[0]);
    assert("cc"@.len() != "kts"@.len());
    assert("cc"@[1] != "cs"@[1]);
    assert("cc"@.len() != "swift"@.len());
    assert("cc"@.len() != "php"@.len());
    assert("cc"@[0] != "rb"@[0]);
    assert("cc"@.len() != "scala"@.len());
    assert("cc"@[0] != "sc"@[0]);
    assert("cc"@.len() != "cpp"@.len());
    assert("cxx"@.len() != "ts"@.len());
    assert("cxx"@[0] != "tsx"@[0]);
    assert("cxx"@.len() != "js"@.len());
    assert("cxx"@[0] != "jsx"@[0]);
    assert("cxx"@[0] != "mjs"@[0]);
    assert("cxx"@[1] != "cjs"@[1]);
    assert("cxx"@.len() != "py"@.len());
    assert("cxx"@[0] != "pyi"@[0]);
    assert("cxx"@.len() != "rs"@.len());
    assert("cxx"@.len() != "go"@.len());
    assert("cxx"@.len() != "java"@.len());
    assert("cxx"@.len() != "kt"@.len());
    assert("cxx"@[0] != "kts"@[0]);
    assert("cxx"@.len() != "cs"@.len());
    assert("cxx"@.len() != "swift"@.len());
    assert("cxx"@[0] != "php"@[0]);
    assert("cxx"@.len() != "rb"@.len());
    assert("cxx"@.len() != "scala"@.len());
    assert("cxx"@.len() != "sc"@.len());
    assert("cxx"@[1] != "cpp"@[1]);
    assert("cxx"@.len() != "cc"@.len());
    assert("hpp"@.len() != "ts"@.len());
    assert("hpp"@[0] != "tsx"@[0]);
    assert("hpp"@.len() != "js"@.len());
    assert("hpp"@[0] != "jsx"@[0]);
    assert("hpp"@[0] != "mjs"@[0]);
    assert("hpp"@[0] != "cjs"@[0]);
    assert("hpp"@.len() != "py"@.len());
    assert("hpp"@[0] != "pyi"@[0]);
    assert("hpp"@.len() != "rs"@.len());
    assert("hpp"@.len() != "go"@.len());
    assert("hpp"@.len() != "java"@.len());
    assert("hpp"@.len() != "kt"@.len());
    assert("hpp"@[0] != "kts"@[0]);
    assert("hpp"@.len() != "cs"@.len());
    assert("hpp"@.len() != "swift"@.len());
    assert("hpp"@[0] != "php"@[0]);
    assert("hpp"@.len() != "rb"@.len());
    assert("hpp"@.len() != "scala"@.len());
    assert("hpp"@.len() != "sc"@.len());
    assert("hpp"@[0] != "cpp"@[0]);
    assert("hpp"@.len() != "cc"@.len());
    assert("hpp"@[0] != "cxx"@[0]);
    assert("hxx"@.len() != "ts"@.len());
    assert("hxx"@[0] != "tsx"@[0]);
    assert("hxx"@.len() != "js"@.len());
    assert("hxx"@[0] != "jsx"@[0]);
    assert("hxx"@[0] != "mjs"@[0]);
    assert("hxx"@[0] != "cjs"@[0]);
    assert("hxx"@.len() != "py"@.len());
    assert("hxx"@[0] != "pyi"@[0]);
    assert("hxx"@.len() != "rs"@.len());
    assert("hxx"@.len() != "go"@.len());
    assert("hxx"@.len() != "java"@.len());
    assert("hxx"@.len() != "kt"@.len());
    assert("hxx"@[0] != "kts"@[0]);
    assert("hxx"@.len() != "cs"@.len());
    assert("hxx"@.len() != "swift"@.len());
    assert("hxx"@[0] != "php"@[0]);
    assert("hxx"@.len() != "rb"@.len());
    assert("hxx"@.len() != "scala"@.len());
    assert("hxx"@.len() != "sc"@.len());
    assert("hxx"@[0] != "cpp"@[0]);
    assert("hxx"@.len() != "cc"@.len());
    assert("hxx"@[0] != "cxx"@[0]);
    assert("hxx"@[1] != "hpp"@[1]);
    assert("h"@.len() != "ts"@.len());
    assert("h"@.len() != "tsx"@.len());
    assert("h"@.len() != "js"@.len());
    assert("h"@.len() != "jsx"@.len());
    assert("h"@.len() != "mjs"@.len());
    assert("h"@.len() != "cjs"@.len());
    assert("h"@.len() != "py"@.len());
    assert("h"@.len() != "pyi"@.len());
    assert("h"@.len() != "rs"@.len());
    assert("h"@.len() != "go"@.len());
    assert("h"@.len() != "java"@.len());
    assert("h"@.len() != "kt"@.len());
    assert("h"@.len() != "kts"@.len());
    assert("h"@.len() != "cs"@.len());
    assert("h"@.len() != "swift"@.len());
    assert("h"@.len() != "php"@.len());
    assert("h"@.len() != "rb"@.len());
    assert("h"@.len() != "scala"@.len());
    assert("h"@.len() != "sc"@.len());
    assert("h"@.len() != "cpp"@.len());
    assert("h"@.len() != "cc"@.len());
    assert("h"@.len() != "cxx"@.len());
    assert("h"@.len() != "hpp"@.len());
    assert("h"@.len() != "hxx"@.len());
}

/// Every supported language has at least one extension, and each of its
/// extensions is detected as that language.
pub proof fn lemma_extensions_map_back(l: Language)
    ensures
        language_extensions(l).len() > 0,
        forall|i: int|
            0 <= i < language_extensions(l).len() ==> language_of_extension(
                #[trigger] language_extensions(l)[i],
            ) == Some(l),
{
    lemma_extension_distinct();
    match l {
        Language::TypeScript => {
            assert(language_of_extension("ts"@) == Some(Language::TypeScript));
            assert(language_of_extension("tsx"@) == Some(Language::TypeScript));
            assert(language_of_extension("js"@) == Some(Language::TypeScript));
            assert(language_of_extension("jsx"@) == Some(Language::TypeScript));
            assert(language_of_extension("mjs"@) == Some(Language::TypeScript));
            assert(language_of_extension("cjs"@) == Some(Language::TypeScript));
        },
        Language::Python => {
            assert(language_of_extension("py"@) == Some(Language::Python));
            assert(language_of_extension("pyi"@) == Some(Language::Python));
        },
        Language::Rust => {
            assert(language_of_extension("rs"@) == Some(Language::Rust));
        },
        Language::Go => {
            assert(language_of_extension("go"@) == Some(Language::Go));
        },
        Language::Java => {
            assert(language_of_extension("java"@) == Some(Language::Java));
        },
        Language::Kotlin => {
            assert(language_of_extension("kt"@) == Some(Language::Kotlin));
            assert(language_of_extension("kts"@) == Some(Language::Kotlin));
        },
        Language::CSharp => {
            assert(language_of_extension("cs"@) == Some(Language::CSharp));
        },
        Language::Swift => {
            assert(language_of_extension("swift"@) == Some(Language::Swift));
        },
        Language::PHP => {
            assert(language_of_extension("php"@) == Some(Language::PHP));
        },
        Language::Ruby => {
            assert(language_of_extension("rb"@) == Some(Language::Ruby));
        },
        Language::Scala => {
            assert(language_of_extension("scala"@) == Some(Language::Scala));
            assert(language_of_extension("sc"@) == Some(Language::Scala));
        },
        Language::Cpp => {
            assert(language_of_extension("cpp"@) == Some(Language::Cpp));
            assert(language_of_extension("cc"@) == Some(Language::Cpp));
            assert(language_of_extension("cxx"@) == Some(Language::Cpp));
            assert(language_of_extension("hpp"@) == Some(Language::Cpp));
            assert(language_of_extension("hxx"@) == Some(Language::Cpp));
            assert(language_of_extension("h"@) == Some(Language::Cpp));
        },
    }
}

/// Conversely, a file whose language is detected has an extension, and that
/// extension is among the ones listed for the detected language.
pub proof fn lemma_detected_extension_listed(p: Seq<char>, l: Language)
    requires
        spec_detect_language(p) == Some(l),
    ensures
        extension(p) is Some,
        language_extensions(l).contains(extension(p)->0),
{
    let e = extension(p)->0;
    if e == "ts"@ {
        assert(language_extensions(l)[0] == e);
    } else if e == "tsx"@ {
        assert(language_extensions(l)[1] == e);
    } else if e == "js"@ {
        assert(language_extensions(l)[2] == e);
    } else if e == "jsx"@ {
        assert(language_extensions(l)[3] == e);
    } else if e == "mjs"@ {
        assert(language_extensions(l)[4] == e);
    } else if e == "cjs"@ {
        assert(language_extensions(l)[5] == e);
    } else if e == "py"@ {
        assert(language_extensions(l)[0] == e);
    } else if e == "pyi"@ {
        assert(language_extensions(l)[1] == e);
    } else if e == "rs"@ {
        assert(language_extensions(l)[0] == e);
    } else if e == "go"@ {
        assert(language_extensions(l)[0] == e);
    } else if e == "java"@ {
        assert(language_extensions(l)[0] == e);
    } else if e == "kt"@ {
        assert(language_extensions(l)[0] == e);
    } else if e == "kts"@ {
        assert(language_extensions(l)[1] == e);
    } else if e == "cs"@ {
        assert(language_extensions(l)[0] == e);
    } else if e == "swift"@ {
        assert(language_extensions(l)[0] == e);
    } else if e == "php"@ {
        assert(language_extensions(l)[0] == e);
    } else if e == "rb"@ {
        assert(language_extensions(l)[0] == e);
    } else if e == "scala"@ {
        assert(language_extensions(l)[0] == e);
    } else if e == "sc"@ {
        assert(language_extensions(l)[1] == e);
    } else if e == "cpp"@ {
        assert(language_extensions(l)[0] == e);
    } else if e == "cc"@ {
        assert(language_extensions(l)[1] == e);
    } else if e == "cxx"@ {
        assert(language_extensions(l)[2] == e);
    } else if e == "hpp"@ {
        assert(language_extensions(l)[3] == e);
    } else if e == "hxx"@ {
        assert(language_extensions(l)[4] == e);
    } else if e == "h"@ {
        assert(language_extensions(l)[5] == e);
    }
}

/// A non-empty extension holding neither `.` nor `/`.
pub open spec fn plain_extension(e: Seq<char>) -> bool {
    e.len() > 0 && forall|i: int| 0 <= i < e.len() ==> e[i] != '.' && e[i] != '/'
}

proof fn lemma_split_without_separator(s: Seq<char>, sep: char)
    requires
        forall|i: int| 0 <= i < s.len() ==> s[i] != sep,
    ensures
        split_on(s, sep) == seq![s],
    decreases s.len(),
{
    if s.len() == 0 {
        assert(s =~= Seq::<char>::empty());
    } else {
        assert(s[s.len() - 1] != sep);
        assert forall|i: int| 0 <= i < s.drop_last().len() implies s.drop_last()[i] != sep by {
            assert(s.drop_last()[i] == s[i]);
        }
        lemma_split_without_separator(s.drop_last(), sep);
        let prev = split_on(s.drop_last(), sep);
        assert(prev.len() == 1);
        assert(prev.last() == s.drop_last());
        assert(s.drop_last().push(s.last()) =~= s);
        assert(prev.update(0, s) =~= seq![s]);
    }
}

proof fn lemma_last_dot(a: Seq<char>, e: Seq<char>)
    requires
        forall|i: int| 0 <= i < e.len() ==> e[i] != '.',
    ensures
        last_index_of(a.push('.') + e, '.') == Some(a.len() as int),
    decreases e.len(),
{
    let s = a.push('.') + e;
    if e.len() == 0 {
        assert(s =~= a.push('.'));
    } else {
        lemma_last_dot(a, e.drop_last());
        assert(s.last() == e.last());
        assert(s.drop_last() =~= a.push('.') + e.drop_last());
    }
}

/// The file `test.<e>` has the extension `e`, so its language is the one
/// of `e`.
proof fn lemma_test_file_language(e: Seq<char>)
    requires
        plain_extension(e),
    ensures
        spec_detect_language("test."@ + e) == language_of_extension(e),
{
    reveal_strlit("test.");
    let s = "test."@ + e;
    assert(s[0] == 't');
    assert forall|i: int| 0 <= i < s.len() implies s[i] != '/' by {
        if i >= 5 {
            assert(s[i] == e[i - 5]);
        }
    }
    lemma_split_without_separator(s, '/');
    assert(split_on(s, '/')[0] == s);
    assert(s.len() >= 6);
    assert(s != seq!['.']);
    assert(s != seq!['.', '.']);
    assert(comp_of_piece(s) == seq![Comp::Normal(s)]);
    assert(seq![s].drop_last() =~= Seq::<Seq<char>>::empty());
    assert(seq![s].last() == s);
    assert(comps_of_pieces(Seq::<Seq<char>>::empty()) == Seq::<Comp>::empty());
    assert(comps_of_pieces(seq![s]) =~= Seq::<Comp>::empty() + seq![Comp::Normal(s)]);
    assert(comps_of_pieces(seq![s]) =~= seq![Comp::Normal(s)]);
    assert(components(s) == seq![Comp::Normal(s)]);
    assert(file_name(s) == Some(s));
    lemma_last_dot("test"@, e);
    reveal_strlit("test");
    assert("test"@.push('.') =~= "test."@);
    assert(last_index_of(s, '.') == Some(4int));
    assert(s.skip(5) =~= e);
    assert(name_extension(s) == Some(e));
}

/// Every extension listed for a language makes a file `test.<ext>` that is
/// detected as that language.
pub proof fn lemma_listed_extensions_detected(l: Language)
    ensures
        forall|i: int|
            0 <= i < language_extensions(l).len() ==> spec_detect_language(
                "test."@ + #[trigger] language_extensions(l)[i],
            ) == Some(l),
{
    lemma_extensions_map_back(l);
    reveal_strlit("ts");
    assert(plain_extension("ts"@));
    reveal_strlit("tsx");
    assert(plain_extension("tsx"@));
    reveal_strlit("js");
    assert(plain_extension("js"@));
    reveal_strlit("jsx");
    assert(plain_extension("jsx"@));
    reveal_strlit("mjs");
    assert(plain_extension("mjs"@));
    reveal_strlit("cjs");
    assert(plain_extension("cjs"@));
    reveal_strlit("py");
    assert(plain_extension("py"@));
    reveal_strlit("pyi");
    assert(plain_extension("pyi"@));
    reveal_strlit("rs");
    assert(plain_extension("rs"@));
    reveal_strlit("go");
    assert(plain_extension("go"@));
    reveal_strlit("java");
    assert(plain_extension("java"@));
    reveal_strlit("kt");
    assert(plain_extension("kt"@));
    reveal_strlit("kts");
    assert(plain_extension("kts"@));
    reveal_strlit("cs");
    assert(plain_extension("cs"@));
    reveal_strlit("swift");
    assert(plain_extension("swift"@));
    reveal_strlit("php");
    assert(plain_extension("php"@));
    reveal_strlit("rb");
    assert(plain_extension("rb"@));
    reveal_strlit("scala");
    assert(plain_extension("scala"@));
    reveal_strlit("sc");
    assert(plain_extension("sc"@));
    reveal_strlit("cpp");
    assert(plain_extension("cpp"@));
    reveal_strlit("cc");
    assert(plain_extension("cc"@));
    reveal_strlit("cxx");
    assert(plain_extension("cxx"@));
    reveal_strlit("hpp");
    assert(plain_extension("hpp"@));
    reveal_strlit("hxx");
    assert(plain_extension("hxx"@));
    reveal_strlit("h");
    assert(plain_extension("h"@));
    assert forall|i: int| 0 <= i < language_extensions(l).len() implies spec_detect_language(
        "test."@ + #[trigger] language_extensions(l)[i],
    ) == Some(l) by {
        lemma_test_file_language(language_extensions(l)[i]);
    }
}

/// The list of all languages holds every language exactly once.
pub proof fn lemma_all_languages_complete(l: Language)
    ensures
        spec_all_languages().contains(l),
        spec_all_languages().no_duplicates(),
{
    let s = spec_all_languages();
    match l {
        Language::TypeScript => assert(s[0] == l),
        Language::Python => assert(s[1] == l),
        Language::Rust => assert(s[2] == l),
        Language::Go => assert(s[3] == l),
        Language::Java => assert(s[4] == l),
        Language::Kotlin => assert(s[5] == l),
        Language::CSharp => assert(s[6] == l),
        Language::Swift => assert(s[7] == l),
        Language::PHP => assert(s[8] == l),
        Language::Ruby => assert(s[9] == l),
        Language::Scala => assert(s[10] == l),
        Language::Cpp => assert(s[11] == l),
    }
}

} // verus!
