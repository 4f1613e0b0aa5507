//! Choosing the font file that a text is written with.
use vstd::prelude::*;
use crate::gcode::opt_chars;

verus! {

/// A path that every platform splits alike: only `/` separates its
/// components, as it does on every platform, because it holds no `\`, no
/// `:` of a drive prefix, and does not begin with the `//` of a network
/// share.
pub open spec fn is_portable(s: Seq<char>) -> bool {
    &&& forall|i: int| 0 <= i < s.len() ==> #[trigger] s[i] != '\\' && s[i] != ':'
    &&& !(s.len() >= 2 && s[0] == '/' && s[1] == '/')
}

/// The characters after the last `/` of `s`, or all of `s` without one.
pub open spec fn last_segment(s: Seq<char>) -> Seq<char>
    decreases s.len(),
{
    if s.len() == 0 || s.last() == '/' {
        Seq::empty()
    } else {
        last_segment(s.drop_last()).push(s.last())
    }
}

/// The last segment is the part of `s` after its last `/`, and holds none.
pub proof fn lemma_last_segment(s: Seq<char>)
    ensures
        last_segment(s).len() <= s.len(),
        s.len() > 0 && s.last() != '/' ==> last_segment(s).len() > 0,
        last_segment(s) == s.skip(s.len() - last_segment(s).len()),
        !last_segment(s).contains('/'),
        last_segment(s).len() < s.len() ==> s[s.len() - last_segment(s).len() - 1] == '/',
    decreases s.len(),
{
    if s.len() > 0 && s.last() != '/' {
        let t = s.drop_last();
        lemma_last_segment(t);
        assert(last_segment(s) =~= s.skip(s.len() - last_segment(s).len()));
        if last_segment(s).contains('/') {
            let i = choose|i: int| 0 <= i < last_segment(s).len() && last_segment(s)[i] == '/';
            if i < last_segment(t).len() {
                assert(last_segment(t)[i] == '/');
            }
        }
        if last_segment(s).len() < s.len() {
            assert(s[s.len() - last_segment(s).len() - 1] == t[t.len() - last_segment(t).len() - 1]);
        }
    } else if s.len() > 0 {
        assert(s.skip(s.len() as int) =~= Seq::<char>::empty());
    } else {
        assert(s.skip(0) =~= s);
    }
}

/// The final component of a path whose components `/` separates, as
/// `std::path::Path::file_name` documents it: trailing `/` and `.`
/// components are passed over, and a path that ends in `..`, or has no
/// component left but a leading `.` or a root, has none.
pub open spec fn final_component(s: Seq<char>) -> Option<Seq<char>>
    decreases s.len(),
{
    if s.len() == 0 {
        None
    } else if s.last() == '/' {
        final_component(s.drop_last())
    } else {
        let seg = last_segment(s);
        proof {
            lemma_last_segment(s);
        }
        let rest = s.take(s.len() - seg.len());
        if seg == seq!['.', '.'] {
            None
        } else if seg == seq!['.'] {
            final_component(rest)
        } else {
            Some(seg)
        }
    }
}

/// A piece of `path` that can be one of its components: not empty, not
/// `.` or `..`, free of the separator `/`, and a contiguous part of `path`.
pub open spec fn is_component_of(name: Seq<char>, path: Seq<char>) -> bool {
    &&& name.len() > 0
    &&& !name.contains('/')
    &&& name != seq!['.']
    &&& name != seq!['.', '.']
    &&& exists|i: int, j: int| 0 <= i <= j <= path.len() && name == path.subrange(i, j)
}

/// The name of the file that `path` names, if it names one, by
/// `std::path::Path::file_name`, which returns the final component of the
/// path. Claimed: a name returned is a component of the path (so it is not
/// empty, not `.` or `..`, holds no `/`, which separates components on
/// every platform, and is a part of the path), and for a path that every
/// platform splits alike it is the final component that the documentation
/// describes. Where platforms split a path differently (at `\`, or after
/// a drive or share prefix), which component is final is not stated.
#[verifier::external_body]
fn path_file_name(path: &str) -> (name: Option<String>)
    ensures
        is_portable(path@) ==> opt_chars(name) == final_component(path@),
        name matches Some(n) ==> is_component_of(n@, path@),
{
    match std::path::Path::new(path).file_name() {
        Some(n) => Some(n.to_string_lossy().into_owned()),
        None => None,
    }
}

/// What follows the last `.` of `name` that is not its first character,
/// if there is such a `.`.
pub open spec fn after_last_dot(name: Seq<char>) -> Option<Seq<char>>
    decreases name.len(),
{
    if name.len() <= 1 {
        None
    } else if name.last() == '.' {
        Some(Seq::empty())
    } else {
        match after_last_dot(name.drop_last()) {
            Some(e) => Some(e.push(name.last())),
            None => None,
        }
    }
}

/// The extension of a file name, as `std::path::Path::extension` documents
/// it: none for `..`, for a name without a `.`, or for a name whose only
/// `.` is its first character; otherwise what follows the last `.`.
pub open spec fn extension_of(name: Seq<char>) -> Option<Seq<char>> {
    if name == seq!['.', '.'] {
        None
    } else {
        after_last_dot(name)
    }
}

proof fn lemma_dot_at(s: Seq<char>, k: int)
    requires
        2 <= k <= s.len(),
        s[k - 1] == '.',
        forall|j: int| k <= j < s.len() ==> #[trigger] s[j] != '.',
    ensures
        after_last_dot(s) == Some(s.skip(k)),
    decreases s.len() - k,
{
    if k < s.len() {
        let t = s.drop_last();
        assert forall|j: int| k <= j < t.len() implies #[trigger] t[j] != '.' by {
            assert(t[j] == s[j]);
        }
        lemma_dot_at(t, k);
        assert(s.last() != '.');
        assert(t.skip(k).push(s.last()) =~= s.skip(k));
    } else {
        assert(s.skip(k) =~= Seq::<char>::empty());
    }
}

proof fn lemma_no_dot(s: Seq<char>)
    requires
        forall|j: int| 1 <= j < s.len() ==> #[trigger] s[j] != '.',
    ensures
        after_last_dot(s) is None,
    decreases s.len(),
{
    if s.len() > 1 {
        let t = s.drop_last();
        assert forall|j: int| 1 <= j < t.len() implies #[trigger] t[j] != '.' by {
            assert(t[j] == s[j]);
        }
        lemma_no_dot(t);
        assert(s.last() == s[s.len() - 1]);
    }
}

/// The extension of the file name `name`.
pub fn file_extension(name: &str) -> (ext: Option<String>)
    ensures
        opt_chars(ext) == extension_of(name@),
{
    let n = name.unicode_len();
    if n == 2 && name.get_char(0) == '.' && name.get_char(1) == '.' {
        assert(name@ =~= seq!['.', '.']);
        return None;
    }
    proof {
        if name@ == seq!['.', '.'] {
            assert(name@[0] == '.' && name@[1] == '.');
        }
    }
    let mut i = n;
    while i > 1 && name.get_char(i - 1) != '.'
        invariant
            n == name@.len(),
            i <= n,
            forall|j: int| i <= j < n ==> #[trigger] name@[j] != '.',
        decreases i,
    {
        i = i - 1;
    }
    if i > 1 {
        proof {
            lemma_dot_at(name@, i as int);
        }
        let e = String::from_str(name.substring_char(i, n));
        assert(e@ =~= name@.skip(i as int));
        Some(e)
    } else {
        proof {
            lemma_no_dot(name@);
        }
        None
    }
}

/// The font file to look for, given the extension and the file name of
/// the requested path: the file name, when the extension is `ttf`.
pub fn font_file(extension: Option<String>, file_name: Option<String>) -> (r: Option<String>)
    ensures
        r is Some <==> (extension matches Some(e) && e@ == "ttf"@ && file_name is Some),
        r matches Some(f) ==> file_name == Some(f),
{
    match extension {
        Some(e) => {
            let ttf = String::from_str("ttf");
            if e == ttf {
                file_name
            } else {
                None
            }
        },
        None => None,
    }
}

/// The file name that a font is looked for under, given the final
/// component of the requested path: that component, when its extension is
/// `ttf`.
pub open spec fn ttf_name(component: Option<Seq<char>>) -> Option<Seq<char>> {
    match component {
        Some(n) => if extension_of(n) == Some("ttf"@) {
            Some(n)
        } else {
            None
        },
        None => None,
    }
}

/// The name of the file, in the fonts folder, of the font that the user
/// asked for: only a path to a `ttf` file is accepted, and only its file
/// name is kept: what is returned is the final component of the path,
/// which names no other folder. No preference gives none.
pub fn validate_preference(preference: Option<String>) -> (r: Option<String>)
    ensures
        r matches Some(f) ==> extension_of(f@) == Some("ttf"@),
        match preference {
            Some(p) => {
                &&& r matches Some(f) ==> is_component_of(f@, p@)
                &&& is_portable(p@) ==> opt_chars(r) == ttf_name(final_component(p@))
            },
            None => r is None,
        },
{
    match preference {
        Some(p) => match path_file_name(p.as_str()) {
            Some(name) => {
                let extension = file_extension(name.as_str());
                let kept = font_file(extension, Some(name));
                proof {
                    reveal_strlit("ttf");
                }
                kept
            },
            None => None,
        },
        None => None,
    }
}

} // verus!
