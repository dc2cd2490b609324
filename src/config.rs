//! Where lists live: the configuration values and the paths derived from them.

use vstd::prelude::*;
use crate::line::push_all;
use crate::text::{chars_of, slice_chars, starts_with, string_of};

verus! {

/// Settings of the lists: the active list, the extension of list files and
/// the directory that holds them.
pub struct TodoConfig {
    pub active_list: String,
    pub list_extension: String,
    pub path: String,
}

/// Settings of the external editor.
pub struct EditorConfig {
    pub command: String,
}

/// The whole configuration.
pub struct Config {
    pub todo: TodoConfig,
    pub editor: EditorConfig,
}

impl Default for Config {
    fn default() -> (c: Config)
        ensures
            c.todo.active_list@ == "default"@,
            c.todo.list_extension@ == "adoc"@,
            c.todo.path@ == "~/todos"@,
            c.editor.command@ == "nvim"@,
    {
        Config {
            todo: TodoConfig {
                active_list: "default".to_string(),
                list_extension: "adoc".to_string(),
                path: "~/todos".to_string(),
            },
            editor: EditorConfig { command: "nvim".to_string() },
        }
    }
}

/// The part of a list name before its first `.`, or the whole name.
pub open spec fn stem(s: Seq<char>) -> Seq<char>
    decreases s.len(),
{
    if s.len() == 0 {
        s
    } else if s[0] == '.' {
        Seq::empty()
    } else {
        seq![s[0]] + stem(s.drop_first())
    }
}

/// `name.ext`
pub open spec fn file_name_spec(name: Seq<char>, ext: Seq<char>) -> Seq<char> {
    name.push('.') + ext
}

/// `name` placed under the directory `base`; a name that begins with `/`
/// stands alone.
pub open spec fn join_spec(base: Seq<char>, name: Seq<char>) -> Seq<char> {
    if name.len() > 0 && name[0] == '/' {
        name
    } else if base.len() == 0 || base.last() == '/' {
        base + name
    } else {
        base.push('/') + name
    }
}

/// A path with a leading `~/` taken as relative to `home`.
pub open spec fn expand_spec(path: Seq<char>, home: Seq<char>) -> Seq<char> {
    if starts_with(path, seq!['~', '/']) {
        join_spec(home, path.skip(2))
    } else {
        path
    }
}

/// The part of a list name before its first `.`; a name without one is kept whole.
pub fn list_stem(name: &str) -> (r: String)
    ensures
        r@ == stem(name@),
{
    let s = chars_of(name);
    let n = s.len();
    let mut i: usize = 0;
    proof {
        assert(s@.subrange(0, 0) + s@.subrange(0, n as int) =~= s@);
    }
    while i < n && s[i] != '.'
        invariant
            i <= n,
            n == s@.len(),
            stem(s@) == s@.subrange(0, i as int) + stem(s@.subrange(i as int, n as int)),
        decreases n - i,
    {
        proof {
            let rest = s@.subrange(i as int, n as int);
            assert(rest[0] == s@[i as int]);
            assert(rest.drop_first() =~= s@.subrange(i + 1, n as int));
            assert(s@.subrange(0, i as int) + seq![s@[i as int]] =~= s@.subrange(0, i + 1));
        }
        i = i + 1;
    }
    proof {
        let rest = s@.subrange(i as int, n as int);
        if i < n {
            assert(rest[0] == s@[i as int]);
        }
        assert(s@.subrange(0, i as int) + stem(rest) =~= s@.subrange(0, i as int));
    }
    string_of(&slice_chars(&s, 0, i))
}

/// The file name of a list: `name.ext`.
pub fn list_file_name(name: &str, ext: &str) -> (r: String)
    ensures
        r@ == file_name_spec(name@, ext@),
{
    let mut out = chars_of(name);
    out.push('.');
    push_all(&mut out, &chars_of(ext));
    string_of(&out)
}

/// `name` placed under the directory `base`, as a path joins a relative
/// component; a name that begins with `/` replaces the base.
pub fn join_path(base: &str, name: &str) -> (r: String)
    ensures
        r@ == join_spec(base@, name@),
{
    let b = chars_of(base);
    let m = chars_of(name);
    if m.len() > 0 && m[0] == '/' {
        return string_of(&m);
    }
    let mut out = b;
    if out.len() > 0 && out[out.len() - 1] != '/' {
        out.push('/');
    }
    push_all(&mut out, &m);
    string_of(&out)
}

/// A path with a leading `~/` taken as relative to the home directory `home`.
pub fn expand_tilde(path: &str, home: &str) -> (r: String)
    ensures
        r@ == expand_spec(path@, home@),
{
    let p = chars_of(path);
    let tilde = vec!['~', '/'];
    proof {
        assert(tilde@ =~= seq!['~', '/']);
    }
    if crate::text::has_prefix(&p, &tilde) {
        let rest = slice_chars(&p, 2, p.len());
        proof {
            assert(rest@ =~= path@.skip(2));
        }
        join_path(home, string_of(&rest).as_str())
    } else {
        string_of(&p)
    }
}

/// The path of the active list: its file name under the lists' directory.
pub fn get_active_list_path(config: &Config, todo_path: &str) -> (r: String)
    ensures
        r@ == join_spec(
            todo_path@,
            file_name_spec(config.todo.active_list@, config.todo.list_extension@),
        ),
{
    let file = list_file_name(config.todo.active_list.as_str(), config.todo.list_extension.as_str());
    join_path(todo_path, file.as_str())
}

/// The path and the file name of the list called `name`, in the lists'
/// directory; the name is cut at its first `.`.
pub fn named_list_path(config: &Config, todo_path: &str, name: &str) -> (r: (String, String))
    ensures
        r.1@ == file_name_spec(stem(name@), config.todo.list_extension@),
        r.0@ == join_spec(todo_path@, r.1@),
{
    let base = list_stem(name);
    let file = list_file_name(base.as_str(), config.todo.list_extension.as_str());
    let path = join_path(todo_path, file.as_str());
    (path, file)
}

} // verus!
