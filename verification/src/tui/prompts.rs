//! The prompts for a path and for a name.
use vstd::prelude::*;

use super::keys::Key;
use super::state::{same_data, App};
use crate::path::{absolute, is_absolute, join, join_path, option_view};
use crate::text::{
    begins_with, chars_of, is_white, same_text, text_between, trim, trimmed, trimmed_end,
    trimmed_start, CharClass,
};

verus! {

/// A typed text after a key.
pub open spec fn edited(input: Seq<char>, key: Key) -> Seq<char> {
    match key {
        Key::Backspace => if input.len() > 0 {
            input.drop_last()
        } else {
            input
        },
        Key::Char(c) => input.push(c),
        _ => input,
    }
}

fn edit(input: &String, key: Key) -> (r: String)
    ensures
        r@ == edited(input@, key),
{
    match key {
        Key::Backspace => {
            let chars = chars_of(input);
            if chars.len() > 0 {
                assert(input@.drop_last() =~= input@.subrange(0, input@.len() - 1));
                text_between(&chars, 0, chars.len() - 1)
            } else {
                input.clone()
            }
        },
        Key::Char(c) => {
            let mut r = input.clone();
            r.push(c);
            r
        },
        _ => input.clone(),
    }
}

/// What is typed into a prompt after a key: the escape and the enter key close it.
pub open spec fn typed(input: Option<Seq<char>>, key: Key) -> Option<Seq<char>> {
    match (input, key) {
        (_, Key::Esc) => None,
        (_, Key::Enter) => None,
        (Some(text), _) => Some(edited(text, key)),
        (None, _) => None,
    }
}

fn typed_text(input: &Option<String>, key: Key) -> (r: Option<String>)
    ensures
        option_view(r) == typed(option_view(*input), key),
{
    match key {
        Key::Esc | Key::Enter => None,
        _ => match input {
            Some(text) => Some(edit(text, key)),
            None => None,
        },
    }
}

/// What was typed, or nothing.
pub open spec fn entered(input: Option<Seq<char>>) -> Seq<char> {
    match input {
        Some(text) => text,
        None => Seq::empty(),
    }
}

fn entered_text(input: &Option<String>) -> (r: String)
    ensures
        r@ == entered(option_view(*input)),
{
    match input {
        Some(text) => text.clone(),
        None => String::new(),
    }
}

/// Handles a key of the prompt for a name. Gives the name that was entered.
pub fn profile_name_key(app: &mut App, key: Key) -> (r: Option<String>)
    ensures
        same_data(*old(app), *final(app)),
        final(app).screen == old(app).screen,
        final(app).theme == old(app).theme,
        final(app).pending_action == old(app).pending_action,
        final(app).import_path_input == old(app).import_path_input,
        option_view(final(app).profile_name_input) == typed(
            option_view(old(app).profile_name_input),
            key,
        ),
        final(app).status@ == if key == Key::Esc {
            "Profile creation cancelled."@
        } else {
            old(app).status@
        },
        option_view(r) == if key == Key::Enter {
            Some(entered(option_view(old(app).profile_name_input)))
        } else {
            None
        },
{
    let name = entered_text(&app.profile_name_input);
    app.profile_name_input = typed_text(&app.profile_name_input, key);
    match key {
        Key::Esc => {
            app.status = "Profile creation cancelled.".to_owned();
            None
        },
        Key::Enter => Some(name),
        _ => None,
    }
}

/// Handles a key of the prompt for a path. Gives the path that was entered, unless
/// it is nothing but white space.
pub fn import_path_key(app: &mut App, key: Key) -> (r: Option<String>)
    ensures
        same_data(*old(app), *final(app)),
        final(app).screen == old(app).screen,
        final(app).theme == old(app).theme,
        final(app).pending_action == old(app).pending_action,
        final(app).profile_name_input == old(app).profile_name_input,
        option_view(final(app).import_path_input) == typed(
            option_view(old(app).import_path_input),
            key,
        ),
        ({
            let path = entered(option_view(old(app).import_path_input));
            let blank = trimmed(path, CharClass::White).len() == 0;
            &&& final(app).status@ == if key == Key::Esc {
                "Path import cancelled."@
            } else if key == Key::Enter && blank {
                "No import path was entered."@
            } else {
                old(app).status@
            }
            &&& option_view(r) == if key == Key::Enter && !blank {
                Some(path)
            } else {
                None
            }
        }),
{
    let path = entered_text(&app.import_path_input);
    app.import_path_input = typed_text(&app.import_path_input, key);
    match key {
        Key::Esc => {
            app.status = "Path import cancelled.".to_owned();
            None
        },
        Key::Enter => {
            if trim(&path, &CharClass::White).as_str().is_empty() {
                app.status = "No import path was entered.".to_owned();
                None
            } else {
                Some(path)
            }
        },
        _ => None,
    }
}

/// Why a typed path names no place.
#[derive(Debug, Clone, Copy, PartialEq, Eq, Structural)]
pub enum UserPathError {
    NoHome,
    NoCurrentDir,
}

impl UserPathError {
    /// What went wrong, in words.
    pub fn message(self) -> (r: &'static str)
        ensures
            r@ == match self {
                UserPathError::NoHome => "HOME is not set"@,
                UserPathError::NoCurrentDir => "determine current working directory"@,
            },
    {
        match self {
            UserPathError::NoHome => "HOME is not set",
            UserPathError::NoCurrentDir => "determine current working directory",
        }
    }
}

/// A typed path without white space and quotation marks around it.
pub open spec fn bare(input: Seq<char>) -> Seq<char> {
    trimmed(trimmed(input, CharClass::White), CharClass::Quote)
}

/// A typed path with the home directory for a tilde.
pub open spec fn with_home(bare: Seq<char>, home: Option<Seq<char>>) -> Option<Seq<char>> {
    if bare == "~"@ {
        home
    } else if "~/"@.is_prefix_of(bare) {
        match home {
            Some(home) => Some(join_path(home, bare.skip(2))),
            None => None,
        }
    } else {
        Some(bare)
    }
}

/// The place that a typed path names.
pub open spec fn user_path(
    input: Seq<char>,
    home: Option<Seq<char>>,
    current_dir: Option<Seq<char>>,
) -> Result<Seq<char>, UserPathError> {
    match with_home(bare(input), home) {
        None => Err(UserPathError::NoHome),
        Some(path) => if absolute(path) {
            Ok(path)
        } else {
            match current_dir {
                Some(dir) => Ok(join_path(dir, path)),
                None => Err(UserPathError::NoCurrentDir),
            }
        },
    }
}

/// The place that a typed path names: a tilde is the home directory, and what does
/// not begin at the root is seen from the working directory.
pub fn resolve_user_path(input: &str, home: &Option<String>, current_dir: &Option<String>) -> (r: Result<
    String,
    UserPathError,
>)
    ensures
        match r {
            Ok(path) => user_path(input@, option_view(*home), option_view(*current_dir)) == Ok::<
                Seq<char>,
                UserPathError,
            >(path@),
            Err(error) => user_path(input@, option_view(*home), option_view(*current_dir)) == Err::<
                Seq<char>,
                UserPathError,
            >(error),
        },
{
    let text = trim(&trim(input, &CharClass::White), &CharClass::Quote);
    proof {
        reveal_strlit("~/");
    }
    let path = if same_text(&text, "~") {
        match home {
            Some(home) => home.clone(),
            None => {
                return Err(UserPathError::NoHome);
            },
        }
    } else if begins_with(&text, "~/") {
        match home {
            Some(home) => {
                let chars = chars_of(&text);
                assert(text@.skip(2) =~= text@.subrange(2, text@.len() as int));
                join(home, &text_between(&chars, 2, chars.len()))
            },
            None => {
                return Err(UserPathError::NoHome);
            },
        }
    } else {
        text
    };
    if is_absolute(&path) {
        return Ok(path);
    }
    match current_dir {
        Some(dir) => Ok(join(dir, &path)),
        None => Err(UserPathError::NoCurrentDir),
    }
}

/// What is typed is what was typed, character by character, and the backspace takes back
/// the last; the enter key gives it all, the escape key drops it.
pub proof fn law_typing_is_kept(input: Seq<char>, c: char)
    ensures
        typed(Some(input), Key::Char(c)) == Some(input.push(c)),
        typed(Some(input.push(c)), Key::Backspace) == Some(input),
        typed(Some(Seq::<char>::empty()), Key::Backspace) == Some(Seq::<char>::empty()),
        typed(Some(input), Key::Esc) is None,
        typed(Some(input), Key::Enter) is None,
        entered(Some(input)) == input,
{
    assert(input.push(c).drop_last() =~= input);
}

proof fn lemma_untouched(text: Seq<char>, class: CharClass)
    requires
        text.len() > 0,
        !class.has(text[0]),
        !class.has(text.last()),
    ensures
        trimmed(text, class) == text,
{
}

proof fn lemma_bare(path: Seq<char>)
    requires
        path.len() > 0,
        !is_white(path[0]) && !is_white(path.last()),
        path[0] != '"' && path[0] != '\'' && path.last() != '"' && path.last() != '\'',
    ensures
        bare(path) == path,
        bare(seq!['"'] + path + seq!['"']) == path,
        bare(seq!['\''] + path + seq!['\'']) == path,
        bare(seq![' '] + path + seq![' ']) == path,
{
    let white = CharClass::White;
    let quote = CharClass::Quote;
    lemma_untouched(path, white);
    lemma_untouched(path, quote);
    lemma_around(path, '"', quote);
    lemma_around(path, '\'', quote);
    lemma_around(path, ' ', white);
    lemma_untouched(seq!['"'] + path + seq!['"'], white);
    lemma_untouched(seq!['\''] + path + seq!['\''], white);
}

proof fn lemma_around(path: Seq<char>, c: char, class: CharClass)
    requires
        path.len() > 0,
        class.has(c),
        !class.has(path[0]),
        !class.has(path.last()),
    ensures
        trimmed(seq![c] + path + seq![c], class) == path,
{
    let whole = seq![c] + path + seq![c];
    let rest = path + seq![c];
    assert(whole.drop_first() =~= rest);
    assert(whole[0] == c && rest[0] == path[0]);
    assert(trimmed_start(whole, class) == trimmed_start(rest, class));
    assert(trimmed_start(rest, class) == rest);
    assert(rest.drop_last() =~= path);
    assert(rest.last() == c);
    assert(trimmed_end(rest, class) == trimmed_end(path, class));
}

/// A typed path names what a shell would take it for: one that begins at the root is
/// itself, a tilde leads to the home directory, any other is seen from the working
/// directory. Quotation marks and blanks around it do not count.
pub proof fn law_typed_paths_lead_where_they_say(
    path: Seq<char>,
    home: Seq<char>,
    current: Seq<char>,
    input: Seq<char>,
)
    requires
        path.len() > 0,
        !is_white(path[0]) && !is_white(path.last()),
        path[0] != '"' && path[0] != '\'' && path.last() != '"' && path.last() != '\'',
        absolute(home),
        input == path || input == seq!['"'] + path + seq!['"'] || input == seq!['\''] + path
            + seq!['\''] || input == seq![' '] + path + seq![' '],
    ensures
        path[0] == '/' ==> user_path(input, None, None) == Ok::<Seq<char>, UserPathError>(path),
        path == "~"@ ==> user_path(input, Some(home), None) == Ok::<Seq<char>, UserPathError>(home),
        path.len() > 1 && path[0] == '~' && path[1] == '/' ==> user_path(input, Some(home), None)
            == Ok::<Seq<char>, UserPathError>(join_path(home, path.skip(2))) || absolute(
            path.skip(2),
        ),
        path[0] != '/' && path[0] != '~' ==> user_path(input, None, Some(current)) == Ok::<
            Seq<char>,
            UserPathError,
        >(join_path(current, path)) && user_path(input, Some(home), None) == Err::<
            Seq<char>,
            UserPathError,
        >(UserPathError::NoCurrentDir),
{
    reveal_strlit("~");
    reveal_strlit("~/");
    lemma_bare(path);
    assert(bare(input) == path);
    if "~/"@.is_prefix_of(path) {
        assert(path.subrange(0, 2)[0] == "~/"@[0]);
        assert(path[0] == '~');
    }
    if path.len() > 1 && path[0] == '~' && path[1] == '/' {
        assert("~/"@ =~= path.subrange(0, 2));
        assert(path.len() != "~"@.len());
        if !absolute(path.skip(2)) {
            let whole = join_path(home, path.skip(2));
            assert(whole[0] == home[0]);
        }
    }
    if path[0] == '/' {
        assert(path != "~"@);
    }
}

} // verus!
