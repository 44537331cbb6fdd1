use crate::diagnostics::errors::string_views;
use crate::syntax::lexer::{Token, TokenView};
use crate::utils::{join, join_texts, push_char, same_text, SourceChars};
use vstd::prelude::*;

verus! {

/// The text without the double quotes at its start.
pub open spec fn trim_front(s: Seq<char>) -> Seq<char>
    decreases s.len(),
{
    if s.len() > 0 && s[0] == '"' {
        trim_front(s.subrange(1, s.len() as int))
    } else {
        s
    }
}

/// The text without the double quotes at its end.
pub open spec fn trim_back(s: Seq<char>) -> Seq<char>
    decreases s.len(),
{
    if s.len() > 0 && s.last() == '"' {
        trim_back(s.drop_last())
    } else {
        s
    }
}

/// The name of a token without the double quotes around it.
pub open spec fn trim_quotes(s: Seq<char>) -> Seq<char> {
    trim_back(trim_front(s))
}

/// The names of a list, each without the double quotes around it.
pub open spec fn trimmed(names: Seq<Seq<char>>) -> Seq<Seq<char>> {
    Seq::new(names.len(), |i: int| trim_quotes(names[i]))
}

/// Whether a list of names holds the given one.
pub open spec fn has_name(names: Seq<Seq<char>>, name: Seq<char>) -> bool {
    exists|i: int| 0 <= i < names.len() && names[i] == name
}

/// The hint that the token found suggests by itself, or together with
/// what was expected, if it suggests one.
pub open spec fn found_hint(found: Option<TokenView>, names: Seq<Seq<char>>) -> Option<Seq<char>> {
    match found {
        Some(TokenView::Else) => Some("Do you have an 'else' without a matching 'if'?"@),
        Some(TokenView::Then) => Some("Do you have an 'then' without a matching 'if'?"@),
        Some(TokenView::Do) => Some("Do you have a 'do' without a matching 'while'?"@),
        Some(TokenView::RightParen) => Some("Do you have an extra closing parenthesis?"@),
        Some(TokenView::RightBracket) => Some("Do you have an extra closing bracket?"@),
        Some(TokenView::Assign) => if has_name(names, "=="@) {
            Some("Did you mean '==' instead of '='?"@)
        } else {
            None
        },
        Some(TokenView::Equal) => if has_name(names, "="@) {
            Some("Did you mean '=' instead of '=='?"@)
        } else {
            None
        },
        Some(TokenView::Pipe) => if has_name(names, "||"@) {
            Some("Did you mean '||' instead of '|'?"@)
        } else {
            None
        },
        Some(TokenView::Unit) => if has_name(names, "Unit"@) {
            Some("Did you mean 'Unit' instead of 'unit'?"@)
        } else {
            None
        },
        Some(TokenView::UnitType) => if has_name(names, "unit"@) {
            Some("Did you mean 'unit' instead of 'Unit'?"@)
        } else {
            None
        },
        _ => None,
    }
}

/// Whether every keyword that starts an expression was expected.
pub open spec fn expects_expression(names: Seq<Seq<char>>) -> bool {
    has_name(names, "let"@) && has_name(names, "set"@) && has_name(names, "if"@) && has_name(
        names,
        "while"@,
    ) && has_name(names, "new"@)
}

/// Whether every type name was expected.
pub open spec fn expects_type(names: Seq<Seq<char>>) -> bool {
    has_name(names, "Int"@) && has_name(names, "Bool"@) && has_name(names, "String"@) && has_name(
        names,
        "Unit"@,
    )
}

/// Whether every kind of value was expected.
pub open spec fn expects_value(names: Seq<Seq<char>>) -> bool {
    has_name(names, "int"@) && has_name(names, "string"@) && has_name(names, "true"@) && has_name(
        names,
        "false"@,
    ) && has_name(names, "unit"@)
}

/// The hint that one expected token suggests, if it suggests one.
pub open spec fn token_hint(name: Seq<char>) -> Option<Seq<char>> {
    if name == "->"@ {
        Some("Did you forget the return type in the function definition?"@)
    } else if name == ")"@ {
        Some("Did you forget a closing parenthesis?"@)
    } else if name == "]"@ {
        Some("Did you forget a closing bracket?"@)
    } else if name == "then"@ {
        Some("Did you forget a 'then' after your if condition?"@)
    } else if name == "do"@ {
        Some("Did you forget a 'do' after your while condition?"@)
    } else if name == "id"@ {
        Some("Did you forget an identifier?"@)
    } else if name == "|"@ {
        Some("Did you forget the '|' in the array initialization?"@)
    } else if name == ":"@ {
        Some("Did you forget the type annotation?"@)
    } else if name == ","@ {
        Some("Did you forget a comma?"@)
    } else if name == ";"@ {
        Some("Did you forget a semicolon?"@)
    } else if name == "!eof"@ {
        Some("Do you have an extra semicolon at the end?"@)
    } else {
        None
    }
}

/// A list with the hint at its end, if there is one.
pub open spec fn with_hint(hints: Seq<Seq<char>>, hint: Option<Seq<char>>) -> Seq<Seq<char>> {
    match hint {
        Some(h) => hints.push(h),
        None => hints,
    }
}

/// A list with the hint at its end, if the condition holds.
pub open spec fn with_hint_if(hints: Seq<Seq<char>>, cond: bool, hint: Seq<char>) -> Seq<
    Seq<char>,
> {
    if cond {
        hints.push(hint)
    } else {
        hints
    }
}

/// The list `hints`, then the hints of the first `n` expected tokens in
/// their order.
pub open spec fn with_token_hints(hints: Seq<Seq<char>>, names: Seq<Seq<char>>, n: nat) -> Seq<
    Seq<char>,
>
    decreases n,
{
    if n == 0 || n > names.len() {
        hints
    } else {
        with_hint(with_token_hints(hints, names, (n - 1) as nat), token_hint(names[n - 1]))
    }
}

/// The hints for a syntax error at which the tokens named `expected`
/// could have stood and `found` was there: first the hint for the token
/// found, then one for each class of tokens that was expected in full,
/// then one for each expected token that has one; and where all that gives
/// nothing, the list of what was expected.
pub open spec fn syntax_hints(expected: Seq<Seq<char>>, found: Option<TokenView>) -> Seq<Seq<char>> {
    let names = trimmed(expected);
    let h1 = with_hint(Seq::empty(), found_hint(found, names));
    let h2 = with_hint_if(h1, expects_expression(names), "Did you forget an expression?"@);
    let h3 = with_hint_if(h2, expects_type(names), "Did you forget a type?"@);
    let h4 = with_hint_if(h3, expects_value(names), "Did you forget a value?"@);
    let h5 = with_token_hints(h4, names, names.len());
    if h5.len() == 0 {
        seq!["expected "@ + join_texts(names, ", "@)]
    } else {
        h5
    }
}

fn trim(name: &str) -> (result: String)
    ensures
        result@ == trim_quotes(name@),
{
    let sc = SourceChars::new(name);
    let chars = &sc.chars;
    let n = chars.len();
    let mut from: usize = 0;
    proof {
        assert(chars@.subrange(0, n as int) =~= chars@);
    }
    while from < n && chars[from] == '"'
        invariant
            from <= n,
            n == chars@.len(),
            trim_front(chars@) == trim_front(chars@.subrange(from as int, n as int)),
        decreases n - from,
    {
        proof {
            let rest = chars@.subrange(from as int, n as int);
            assert(rest.subrange(1, rest.len() as int) =~= chars@.subrange(from + 1, n as int));
        }
        from += 1;
    }
    let ghost front = chars@.subrange(from as int, n as int);
    let mut to: usize = n;
    while to > from && chars[to - 1] == '"'
        invariant
            from <= to <= n,
            n == chars@.len(),
            front == chars@.subrange(from as int, n as int),
            trim_back(front) == trim_back(chars@.subrange(from as int, to as int)),
        decreases to - from,
    {
        proof {
            let part = chars@.subrange(from as int, to as int);
            assert(part.drop_last() =~= chars@.subrange(from as int, to - 1));
        }
        to -= 1;
    }
    let mut result = String::new();
    let mut i: usize = from;
    while i < to
        invariant
            from <= i <= to <= n,
            n == chars@.len(),
            result@ == chars@.subrange(from as int, i as int),
        decreases to - i,
    {
        push_char(&mut result, chars[i]);
        proof {
            assert(chars@.subrange(from as int, i as int).push(chars@[i as int])
                =~= chars@.subrange(from as int, i + 1));
        }
        i += 1;
    }
    result
}

fn contains(names: &Vec<String>, name: &str) -> (found: bool)
    ensures
        found == has_name(string_views(names@), name@),
{
    let mut i: usize = 0;
    while i < names.len()
        invariant
            i <= names@.len(),
            forall|j: int| 0 <= j < i ==> string_views(names@)[j] != name@,
        decreases names@.len() - i,
    {
        if same_text(names[i].as_str(), name) {
            assert(string_views(names@)[i as int] == name@);
            return true;
        }
        i += 1;
    }
    false
}

fn push_hint(hints: &mut Vec<String>, hint: &str)
    ensures
        string_views(final(hints)@) == string_views(old(hints)@).push(hint@),
{
    hints.push(hint.to_owned());
    proof {
        assert(string_views(hints@) =~= string_views(old(hints)@).push(hint@));
    }
}

fn hint_for_found(found: &Option<Token>, names: &Vec<String>) -> (hint: Option<&'static str>)
    ensures
        match hint {
            Some(h) => found_hint(token_option_view(*found), string_views(names@))
                == Some(h@),
            None => found_hint(token_option_view(*found), string_views(names@))
                is None,
        },
{
    match found {
        Some(Token::Else) => Some("Do you have an 'else' without a matching 'if'?"),
        Some(Token::Then) => Some("Do you have an 'then' without a matching 'if'?"),
        Some(Token::Do) => Some("Do you have a 'do' without a matching 'while'?"),
        Some(Token::RightParen) => Some("Do you have an extra closing parenthesis?"),
        Some(Token::RightBracket) => Some("Do you have an extra closing bracket?"),
        Some(Token::Assign) => if contains(names, "==") {
            Some("Did you mean '==' instead of '='?")
        } else {
            None
        },
        Some(Token::Equal) => if contains(names, "=") {
            Some("Did you mean '=' instead of '=='?")
        } else {
            None
        },
        Some(Token::Pipe) => if contains(names, "||") {
            Some("Did you mean '||' instead of '|'?")
        } else {
            None
        },
        Some(Token::Unit) => if contains(names, "Unit") {
            Some("Did you mean 'Unit' instead of 'unit'?")
        } else {
            None
        },
        Some(Token::UnitType) => if contains(names, "unit") {
            Some("Did you mean 'unit' instead of 'Unit'?")
        } else {
            None
        },
        _ => None,
    }
}

/// The view of a token that may be missing.
pub open spec fn token_option_view(found: Option<Token>) -> Option<TokenView> {
    match found {
        Some(t) => Some(t@),
        None => None,
    }
}

fn hint_for_token(name: &str) -> (hint: Option<&'static str>)
    ensures
        match hint {
            Some(h) => token_hint(name@) == Some(h@),
            None => token_hint(name@) is None,
        },
{
    if same_text(name, "->") {
        Some("Did you forget the return type in the function definition?")
    } else if same_text(name, ")") {
        Some("Did you forget a closing parenthesis?")
    } else if same_text(name, "]") {
        Some("Did you forget a closing bracket?")
    } else if same_text(name, "then") {
        Some("Did you forget a 'then' after your if condition?")
    } else if same_text(name, "do") {
        Some("Did you forget a 'do' after your while condition?")
    } else if same_text(name, "id") {
        Some("Did you forget an identifier?")
    } else if same_text(name, "|") {
        Some("Did you forget the '|' in the array initialization?")
    } else if same_text(name, ":") {
        Some("Did you forget the type annotation?")
    } else if same_text(name, ",") {
        Some("Did you forget a comma?")
    } else if same_text(name, ";") {
        Some("Did you forget a semicolon?")
    } else if same_text(name, "!eof") {
        Some("Do you have an extra semicolon at the end?")
    } else {
        None
    }
}

/// The hints to show under a syntax error.
pub fn get_syntax_hints(expected: Vec<String>, found: Option<Token>) -> (hints: Vec<String>)
    ensures
        string_views(hints@) == syntax_hints(string_views(expected@), token_option_view(found)),
{
    let mut names: Vec<String> = Vec::new();
    let mut i: usize = 0;
    while i < expected.len()
        invariant
            i <= expected@.len(),
            names@.len() == i,
            forall|j: int| 0 <= j < i ==> (#[trigger] names@[j])@ == trim_quotes(expected@[j]@),
        decreases expected@.len() - i,
    {
        names.push(trim(expected[i].as_str()));
        i += 1;
    }
    let ghost name_views = trimmed(string_views(expected@));
    proof {
        assert(string_views(names@) =~= name_views);
    }
    let mut hints: Vec<String> = Vec::new();
    proof {
        assert(string_views(hints@) =~= Seq::empty());
    }
    match hint_for_found(&found, &names) {
        Some(h) => push_hint(&mut hints, h),
        None => {},
    }
    let expression = contains(&names, "let") && contains(&names, "set") && contains(&names, "if")
        && contains(&names, "while") && contains(&names, "new");
    if expression {
        push_hint(&mut hints, "Did you forget an expression?");
    }
    let ty = contains(&names, "Int") && contains(&names, "Bool") && contains(&names, "String")
        && contains(&names, "Unit");
    if ty {
        push_hint(&mut hints, "Did you forget a type?");
    }
    let value = contains(&names, "int") && contains(&names, "string") && contains(&names, "true")
        && contains(&names, "false") && contains(&names, "unit");
    if value {
        push_hint(&mut hints, "Did you forget a value?");
    }
    let ghost base = string_views(hints@);
    let mut k: usize = 0;
    while k < names.len()
        invariant
            k <= names@.len(),
            string_views(names@) == name_views,
            string_views(hints@) == with_token_hints(base, name_views, k as nat),
        decreases names@.len() - k,
    {
        proof {
            assert(name_views[k as int] == names@[k as int]@);
        }
        match hint_for_token(names[k].as_str()) {
            Some(h) => push_hint(&mut hints, h),
            None => {},
        }
        k += 1;
    }
    if hints.len() == 0 {
        let list = join(&names, ", ");
        let mut text = "expected ".to_owned();
        text.append(list.as_str());
        let mut only: Vec<String> = Vec::new();
        only.push(text);
        proof {
            assert(Seq::new(names@.len(), |i: int| names@[i]@) =~= name_views);
            assert(string_views(only@) =~= seq!["expected "@ + join_texts(name_views, ", "@)]);
        }
        only
    } else {
        hints
    }
}

} // verus!
