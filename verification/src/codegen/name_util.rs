//! Turning names from one convention of case into another.
use vstd::prelude::*;
use vstd::string::StrSliceExecFns;

use crate::text::{
    first_lowercase, first_uppercase, is_lower, is_lowercase, is_upper, is_uppercase, lowercase_of,
    push_char, uppercase_of,
};

verus! {

/// The snake case of the rest of a camel case name, from character `i` on.
///
/// `in_caps` says that the character before was uppercase, `no_underscore`
/// that nothing was read yet or the character before was an underscore. An
/// uppercase character becomes lowercase. It gets an underscore in front
/// where it starts a run of capitals, or ends one before a lowercase
/// character, unless `no_underscore` holds.
pub open spec fn snake_from(name: Seq<char>, i: int, in_caps: bool, no_underscore: bool) -> Seq<
    char,
>
    decreases name.len() - i,
{
    if i < 0 || i >= name.len() {
        Seq::empty()
    } else {
        let c = name[i];
        let rest = snake_from(name, i + 1, is_upper(c), c == '_');
        if is_upper(c) {
            let breaks = !in_caps || (i + 1 < name.len() && is_lower(name[i + 1]));
            if breaks && !no_underscore {
                seq!['_', lowercase_of(c)[0]] + rest
            } else {
                seq![lowercase_of(c)[0]] + rest
            }
        } else {
            seq![c] + rest
        }
    }
}

/// The snake case of a camel case name: `FooBar` is `foo_bar`, `HTTPServer`
/// is `http_server`.
pub open spec fn snake_of(name: Seq<char>) -> Seq<char> {
    snake_from(name, 0, false, true)
}

/// `text` with a hyphen for each underscore.
pub open spec fn hyphenated(text: Seq<char>) -> Seq<char> {
    Seq::new(
        text.len(),
        |i: int|
            if text[i] == '_' {
                '-'
            } else {
                text[i]
            },
    )
}

/// The camel case of the rest of a snake case name, from character `i` on.
///
/// Underscores are dropped. `upper_next` says that the next character that
/// is kept becomes uppercase: after an underscore, and at the start where
/// the result is to start uppercase.
pub open spec fn camel_from(name: Seq<char>, i: int, upper_next: bool) -> Seq<char>
    decreases name.len() - i,
{
    if i < 0 || i >= name.len() {
        Seq::empty()
    } else if name[i] == '_' {
        camel_from(name, i + 1, true)
    } else if upper_next {
        seq![uppercase_of(name[i])[0]] + camel_from(name, i + 1, false)
    } else {
        seq![name[i]] + camel_from(name, i + 1, false)
    }
}

pub fn camel_to_snake_case(s: &str) -> (result: String)
    ensures
        result@ == snake_of(s@),
{
    let n = s.unicode_len();
    let mut result = String::new();
    let mut is_caps_word = false;
    let mut do_not_underscore = true;
    let mut i: usize = 0;
    proof {
        assert(result@ + snake_of(s@) =~= snake_of(s@));
    }
    while i < n
        invariant
            i <= n,
            n == s@.len(),
            result@ + snake_from(s@, i as int, is_caps_word, do_not_underscore) == snake_of(s@),
        decreases n - i,
    {
        let ghost before = result@;
        let ghost here = snake_from(s@, i as int, is_caps_word, do_not_underscore);
        let c = s.get_char(i);
        if is_uppercase(c) {
            let breaks = if !is_caps_word {
                true
            } else if i + 1 < n {
                is_lowercase(s.get_char(i + 1))
            } else {
                false
            };
            if breaks && !do_not_underscore {
                push_char(&mut result, '_');
            }
            push_char(&mut result, first_lowercase(c));
            is_caps_word = true;
        } else {
            push_char(&mut result, c);
            is_caps_word = false;
        }
        do_not_underscore = c == '_';
        i = i + 1;
        proof {
            assert(result@ + snake_from(s@, i as int, is_caps_word, do_not_underscore) =~= before
                + here);
        }
    }
    proof {
        assert(result@ + Seq::<char>::empty() =~= result@);
    }
    result
}

pub fn camel_to_kebab_case(s: &str) -> (result: String)
    ensures
        result@ == hyphenated(snake_of(s@)),
{
    let snake = camel_to_snake_case(s);
    let n = snake.as_str().unicode_len();
    let mut result = String::new();
    let mut i: usize = 0;
    while i < n
        invariant
            i <= n,
            n == snake@.len(),
            result@ == hyphenated(snake@).take(i as int),
        decreases n - i,
    {
        let c = snake.as_str().get_char(i);
        if c == '_' {
            push_char(&mut result, '-');
        } else {
            push_char(&mut result, c);
        }
        proof {
            assert(result@ =~= hyphenated(snake@).take(i + 1));
        }
        i = i + 1;
    }
    proof {
        assert(hyphenated(snake@).take(n as int) =~= hyphenated(snake@));
    }
    result
}

fn _snake_to_camel_case(s: &str, start_upper: bool) -> (result: String)
    ensures
        result@ == camel_from(s@, 0, start_upper),
{
    let n = s.unicode_len();
    let mut result = String::new();
    let mut make_next_char_upper = start_upper;
    let mut i: usize = 0;
    proof {
        assert(result@ + camel_from(s@, 0, start_upper) =~= camel_from(s@, 0, start_upper));
    }
    while i < n
        invariant
            i <= n,
            n == s@.len(),
            result@ + camel_from(s@, i as int, make_next_char_upper) == camel_from(
                s@,
                0,
                start_upper,
            ),
        decreases n - i,
    {
        let ghost before = result@;
        let ghost here = camel_from(s@, i as int, make_next_char_upper);
        let c = s.get_char(i);
        if c == '_' {
            make_next_char_upper = true;
        } else if make_next_char_upper {
            make_next_char_upper = false;
            push_char(&mut result, first_uppercase(c));
        } else {
            make_next_char_upper = false;
            push_char(&mut result, c);
        }
        i = i + 1;
        proof {
            assert(result@ + camel_from(s@, i as int, make_next_char_upper) =~= before + here);
        }
    }
    proof {
        assert(result@ + Seq::<char>::empty() =~= result@);
    }
    result
}

/// `foo_bar` is `fooBar`.
pub fn snake_to_camel_case(s: &str) -> (result: String)
    ensures
        result@ == camel_from(s@, 0, false),
{
    _snake_to_camel_case(s, false)
}

/// `foo_bar` is `FooBar`.
pub fn snake_to_upper_camel_case(s: &str) -> (result: String)
    ensures
        result@ == camel_from(s@, 0, true),
{
    _snake_to_camel_case(s, true)
}

} // verus!
