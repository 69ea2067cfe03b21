//! An editor over a lossless syntax tree.
//!
//! It adds, rewrites and removes variable definitions, and leaves the
//! formatting, comments and spacing of everything else as they are.
//! Definitions that it adds are written in the conventional style: on a
//! line of their own that ends with a newline.

use vstd::prelude::*;
use vstd::string::StringExecFns;
use crate::apml::ast;
use crate::apml::edits::{
    lemma_assignment_wf, lemma_with_end_newline_wf, lemma_with_line_wf, lemma_with_replaced_wf,
    lemma_without_variable_wf,
};
use crate::apml::emit::{EmitResult, emit_definitions, emit_document};
use crate::apml::lower::lower_value;
use crate::apml::lst::{
    ApmlLst, Token, TokenView, VariableDefinition, VariableDefinitionView, VariableOp, tokens_view,
};
use crate::apml::valid::{is_identifier, valid_definitions, valid_value};
use crate::apml::wellformed::wf_tokens;

verus! {

/// An editor that owns the tree it edits.
#[derive(Debug, Clone)]
pub struct ApmlEditor(ApmlLst);

impl View for ApmlEditor {
    type V = Seq<TokenView>;

    closed spec fn view(&self) -> Seq<TokenView> {
        self.0@
    }
}

/// Whether a token is the definition of the variable `name`.
pub open spec fn defines(t: TokenView, name: Seq<char>) -> bool {
    match t {
        TokenView::Variable(d) => d.name == name,
        _ => false,
    }
}

/// The index of the first definition of `name` at or after `from`, if there is one.
pub open spec fn find_from(ts: Seq<TokenView>, name: Seq<char>, from: int) -> Option<int>
    decreases ts.len() - from,
{
    if from < 0 || from >= ts.len() {
        None
    } else if defines(ts[from], name) {
        Some(from)
    } else {
        find_from(ts, name, from + 1)
    }
}

/// The index of the first definition of `name`, if there is one.
pub open spec fn find_variable(ts: Seq<TokenView>, name: Seq<char>) -> Option<int> {
    find_from(ts, name, 0)
}

/// The index of the first newline token at or after `from`; the number of
/// tokens where there is none.
pub open spec fn line_end(ts: Seq<TokenView>, from: int) -> int
    decreases ts.len() - from,
{
    if from < 0 || from >= ts.len() {
        ts.len() as int
    } else if ts[from] is Newline {
        from
    } else {
        line_end(ts, from + 1)
    }
}

/// The tokens, with a newline token added where the last token is not one.
pub open spec fn with_end_newline(ts: Seq<TokenView>) -> Seq<TokenView> {
    if ts.len() == 0 || ts.last() is Newline {
        ts
    } else {
        ts.push(TokenView::Newline)
    }
}

/// The tokens, with a line that holds `token` added at the end.
pub open spec fn with_line_at_end(ts: Seq<TokenView>, token: TokenView) -> Seq<TokenView> {
    with_end_newline(ts).push(token).push(TokenView::Newline)
}

/// Where a line is put that is to follow the line of the first definition of
/// `after`: behind the newline token that ends that line. `None` where
/// `after` is not defined, or where its line is the last and has no newline.
pub open spec fn line_after(ts: Seq<TokenView>, after: Seq<char>) -> Option<int> {
    match find_variable(ts, after) {
        Some(index) => if line_end(ts, index) < ts.len() {
            Some(line_end(ts, index) + 1)
        } else {
            None
        },
        None => None,
    }
}

/// The tokens after `token` has been added on a line of its own: behind the
/// line of `after`, or else at the end.
pub open spec fn with_line(ts: Seq<TokenView>, token: TokenView, after: Option<Seq<char>>) -> Seq<
    TokenView,
> {
    match after {
        Some(name) => match line_after(ts, name) {
            Some(at) => ts.take(at).push(token).push(TokenView::Newline) + ts.skip(at),
            None => with_line_at_end(ts, token),
        },
        None => with_line_at_end(ts, token),
    }
}

/// The tokens after the first definition of `name` has been replaced by
/// `token`, or, where there is none, `token` has been added on a line at the end.
pub open spec fn with_replaced(ts: Seq<TokenView>, name: Seq<char>, token: TokenView) -> Seq<
    TokenView,
> {
    match find_variable(ts, name) {
        Some(index) => ts.update(index, token),
        None => with_line_at_end(ts, token),
    }
}

/// Whether the line that starts at `from` holds a definition.
pub open spec fn line_has_variable(ts: Seq<TokenView>, from: int) -> bool {
    exists|k: int| from <= k < line_end(ts, from) && #[trigger] ts[k] is Variable
}

/// Where the run of comment lines that ends just before `start` begins: a
/// comment line is a comment token that stands alone between two newline
/// tokens, or between the start of the tokens and a newline token.
pub open spec fn comment_lines_start(ts: Seq<TokenView>, start: int) -> int
    decreases start,
{
    if 2 <= start <= ts.len() && ts[start - 1] is Newline && ts[start - 2] is Comment && (start
        == 2 || ts[start - 3] is Newline) {
        comment_lines_start(ts, start - 2)
    } else {
        start
    }
}

/// The first token that leaves with the definition at `index`: the
/// definition itself where the next line holds a definition, else the first of
/// the comment lines that stand directly above it.
pub open spec fn removal_start(ts: Seq<TokenView>, index: int) -> int {
    if line_has_variable(ts, line_end(ts, index) + 1) {
        index
    } else {
        comment_lines_start(ts, index)
    }
}

/// The first token that stays behind the definition at `index`: the one after
/// the newline token that ends its line.
pub open spec fn removal_end(ts: Seq<TokenView>, index: int) -> int {
    if line_end(ts, index) < ts.len() {
        line_end(ts, index) + 1
    } else {
        ts.len() as int
    }
}

/// The tokens after the definition at `index` has been removed.
pub open spec fn without_variable(ts: Seq<TokenView>, index: int) -> Seq<TokenView> {
    ts.take(removal_start(ts, index)) + ts.skip(removal_end(ts, index))
}

/// The definitions among the tokens, in order.
pub open spec fn variables_of(ts: Seq<TokenView>) -> Seq<VariableDefinitionView>
    decreases ts.len(),
{
    if ts.len() == 0 {
        Seq::empty()
    } else {
        match ts.last() {
            TokenView::Variable(d) => variables_of(ts.drop_last()).push(d),
            _ => variables_of(ts.drop_last()),
        }
    }
}

/// The names that the tokens define, in order.
pub open spec fn keys_of(ts: Seq<TokenView>) -> Seq<Seq<char>> {
    Seq::new(variables_of(ts).len(), |i: int| variables_of(ts)[i].name)
}

/// The texts of the comments among the tokens, in order.
pub open spec fn comments_of(ts: Seq<TokenView>) -> Seq<Seq<char>>
    decreases ts.len(),
{
    if ts.len() == 0 {
        Seq::empty()
    } else {
        match ts.last() {
            TokenView::Comment(text) => comments_of(ts.drop_last()).push(text),
            _ => comments_of(ts.drop_last()),
        }
    }
}

/// The texts of a list of string slices, in order.
pub open spec fn texts_of(v: Seq<&str>) -> Seq<Seq<char>> {
    Seq::new(v.len(), |i: int| v[i]@)
}

/// The views of a list of borrowed definitions, in order.
pub open spec fn definitions_of(v: Seq<&VariableDefinition>) -> Seq<VariableDefinitionView> {
    Seq::new(v.len(), |i: int| v[i]@)
}

/// What `find_from` finds is the lowest index at or after `from` that holds a definition of `name`.
pub proof fn lemma_find_from(ts: Seq<TokenView>, name: Seq<char>, from: int)
    requires
        0 <= from,
    ensures
        match find_from(ts, name, from) {
            Some(i) => from <= i < ts.len() && defines(ts[i], name) && forall|j: int|
                from <= j < i ==> !defines(#[trigger] ts[j], name),
            None => forall|j: int| from <= j < ts.len() ==> !defines(#[trigger] ts[j], name),
        },
    decreases ts.len() - from,
{
    if from < ts.len() && !defines(ts[from], name) {
        lemma_find_from(ts, name, from + 1);
    }
}

/// No newline token stands between `from` and the end of its line.
pub proof fn lemma_line_end(ts: Seq<TokenView>, from: int)
    requires
        0 <= from,
    ensures
        from <= line_end(ts, from) || ts.len() < from,
        line_end(ts, from) <= ts.len(),
        line_end(ts, from) < ts.len() ==> ts[line_end(ts, from)] is Newline,
        forall|j: int| from <= j < line_end(ts, from) ==> !(#[trigger] ts[j] is Newline),
    decreases ts.len() - from,
{
    if from < ts.len() && !(ts[from] is Newline) {
        lemma_line_end(ts, from + 1);
    }
}

impl ApmlEditor {
    /// Wraps the given tree with the editing functions.
    pub fn wrap(lst: ApmlLst) -> (editor: Self)
        ensures
            editor@ == lst@,
    {
        Self(lst)
    }

    /// Gives the tree back.
    pub fn unwrap(self) -> (lst: ApmlLst)
        ensures
            lst@ == self@,
    {
        self.0
    }

    /// The tree that is being edited.
    pub fn as_ref(&self) -> (lst: &ApmlLst)
        ensures
            lst@ == self@,
    {
        &self.0
    }

    /// The tokens of the tree.
    pub fn lst_tokens(&mut self) -> (tokens: &Vec<Token>)
        ensures
            tokens_view(tokens@) == old(self)@,
            final(self)@ == old(self)@,
    {
        &self.0.0
    }

    /// An iterator over the tokens of the tree.
    pub fn lst_tokens_iter(&self) -> (tokens: std::slice::Iter<'_, Token>)
        ensures
            tokens_view(vstd::std_specs::slice::into_iter_elts(tokens)) == self@,
    {
        self.0.0.iter()
    }

    /// The tokens of the tree, open to any change.
    pub fn lst_tokens_mut(&mut self) -> (tokens: &mut Vec<Token>)
        ensures
            tokens_view(tokens@) == old(self)@,
            final(self)@ == tokens_view(final(tokens)@),
    {
        &mut self.0.0
    }
}

/// The line that starts at `from` ends at the first newline token, or where the tokens end.
pub proof fn lemma_line_end_is(ts: Seq<TokenView>, from: int, end: int)
    requires
        0 <= from <= end <= ts.len(),
        forall|j: int| from <= j < end ==> !(#[trigger] ts[j] is Newline),
        end < ts.len() ==> ts[end] is Newline,
    ensures
        line_end(ts, from) == end,
    decreases end - from,
{
    if from < end {
        lemma_line_end_is(ts, from + 1, end);
    }
}

/// The view of a vector with one more token.
proof fn lemma_view_push(v: Seq<Token>, t: Token)
    ensures
        tokens_view(v.push(t)) == tokens_view(v).push(t@),
{
    assert(tokens_view(v.push(t)) =~= tokens_view(v).push(t@));
}

/// Builds the token of a plain assignment of `value` to `name`.
fn assignment(name: &str, value: &ast::VariableValue) -> (token: Token)
    ensures
        token@ == assignment_of(name@, value@),
{
    Token::Variable(
        VariableDefinition {
            name: String::from_str(name),
            op: VariableOp::Assignment,
            value: value.lower(),
        },
    )
}

/// The token of a plain assignment of `value` to `name`, written in the conventional style.
pub open spec fn assignment_of(name: Seq<char>, value: ast::VariableValueView) -> TokenView {
    TokenView::Variable(
        VariableDefinitionView { name, op: VariableOp::Assignment, value: lower_value(value) },
    )
}

impl ApmlEditor {
    /// The definitions of the tree, in order.
    pub fn lst_variables(&self) -> (variables: Vec<&VariableDefinition>)
        ensures
            definitions_of(variables@) == variables_of(self@),
    {
        let tokens = &self.0.0;
        let mut variables: Vec<&VariableDefinition> = Vec::new();
        let mut i: usize = 0;
        assert(self@.take(0) =~= Seq::empty());
        assert(definitions_of(variables@) =~= Seq::empty());
        while i < tokens.len()
            invariant
                i <= tokens@.len(),
                tokens_view(tokens@) == self@,
                definitions_of(variables@) == variables_of(self@.take(i as int)),
            decreases tokens@.len() - i,
        {
            let ghost before = definitions_of(variables@);
            assert(self@.take(i as int + 1).drop_last() =~= self@.take(i as int));
            if let Token::Variable(var) = &tokens[i] {
                variables.push(var);
                assert(definitions_of(variables@) =~= before.push(var@));
            }
            i += 1;
        }
        assert(self@.take(i as int) =~= self@);
        variables
    }

    /// The meaning of the definitions of the tree, in order, or the error
    /// of the first definition that has none.
    pub fn ast_variables(&self) -> (r: EmitResult<Vec<ast::VariableDefinition>>)
        ensures
            emit_document(self@) == match r {
                Ok(ds) => Ok(ast::definitions_view(ds@)),
                Err(e) => Err(e),
            },
            wf_tokens(self@) && r is Ok ==> valid_definitions(ast::definitions_view(r->Ok_0@)),
    {
        emit_definitions(&self.0.0)
    }

    /// The names that the tree defines, in order. A name that is defined
    /// twice is there twice.
    pub fn keys(&self) -> (keys: Vec<&str>)
        ensures
            texts_of(keys@) == keys_of(self@),
    {
        let tokens = &self.0.0;
        let mut keys: Vec<&str> = Vec::new();
        let mut i: usize = 0;
        assert(self@.take(0) =~= Seq::empty());
        assert(texts_of(keys@) =~= keys_of(self@.take(0)));
        while i < tokens.len()
            invariant
                i <= tokens@.len(),
                tokens_view(tokens@) == self@,
                texts_of(keys@) == keys_of(self@.take(i as int)),
            decreases tokens@.len() - i,
        {
            let ghost before = texts_of(keys@);
            assert(self@.take(i as int + 1).drop_last() =~= self@.take(i as int));
            if let Token::Variable(var) = &tokens[i] {
                keys.push(var.name.as_str());
                assert(texts_of(keys@) =~= before.push(var.name@));
                assert(texts_of(keys@) =~= keys_of(self@.take(i as int + 1)));
            } else {
                assert(texts_of(keys@) =~= keys_of(self@.take(i as int + 1)));
            }
            i += 1;
        }
        assert(self@.take(i as int) =~= self@);
        keys
    }

    /// Finds the first definition of `name`, and its index among the tokens.
    pub fn find_var(&self, name: &str) -> (found: Option<(usize, &VariableDefinition)>)
        ensures
            match found {
                Some((index, var)) => {
                    &&& find_variable(self@, name@) == Some(index as int)
                    &&& index < self@.len()
                    &&& self@[index as int] == TokenView::Variable(var@)
                    &&& var@.name == name@
                    &&& forall|j: int| 0 <= j < index ==> !defines(#[trigger] self@[j], name@)
                },
                None => {
                    &&& find_variable(self@, name@) is None
                    &&& forall|j: int| 0 <= j < self@.len() ==> !defines(#[trigger] self@[j], name@)
                },
            },
    {
        let tokens = &self.0.0;
        let wanted = String::from_str(name);
        let mut i: usize = 0;
        proof {
            lemma_find_from(self@, name@, 0);
        }
        while i < tokens.len()
            invariant
                i <= tokens@.len(),
                tokens_view(tokens@) == self@,
                wanted@ == name@,
                find_variable(self@, name@) == find_from(self@, name@, i as int),
            decreases tokens@.len() - i,
        {
            if let Token::Variable(var) = &tokens[i] {
                if var.name == wanted {
                    proof {
                        lemma_find_from(self@, name@, 0);
                    }
                    assert(self@[i as int] == TokenView::Variable(var@));
                    return Some((i, var));
                }
            }
            i += 1;
        }
        proof {
            lemma_find_from(self@, name@, 0);
        }
        None
    }

    /// Ensures that the text ends with a newline, unless it is empty.
    pub fn ensure_end_newline(&mut self)
        ensures
            final(self)@ == with_end_newline(old(self)@),
            wf_tokens(old(self)@) ==> wf_tokens(final(self)@),
    {
        proof {
            if wf_tokens(self@) {
                lemma_with_end_newline_wf(self@);
            }
        }
        let n = self.0.0.len();
        let ended = if n == 0 {
            true
        } else {
            match &self.0.0[n - 1] {
                Token::Newline => true,
                _ => false,
            }
        };
        if !ended {
            proof {
                lemma_view_push(self.0.0@, Token::Newline);
            }
            self.0.0.push(Token::Newline);
        }
    }

    /// Adds `token` on a line of its own at the end.
    fn push_line(&mut self, token: Token)
        ensures
            final(self)@ == with_line_at_end(old(self)@, token@),
    {
        self.ensure_end_newline();
        proof {
            lemma_view_push(self.0.0@, token);
            lemma_view_push(self.0.0@.push(token), Token::Newline);
        }
        self.0.0.push(token);
        self.0.0.push(Token::Newline);
    }

    /// Finds the end of the line that holds the token at `from`.
    fn find_line_end(&self, from: usize) -> (end: usize)
        requires
            from <= self@.len(),
        ensures
            end == line_end(self@, from as int),
            from <= end <= self@.len(),
    {
        let tokens = &self.0.0;
        let mut j: usize = from;
        while j < tokens.len()
            invariant
                from <= j <= tokens@.len(),
                tokens_view(tokens@) == self@,
                line_end(self@, from as int) == line_end(self@, j as int),
            decreases tokens@.len() - j,
        {
            if let Token::Newline = &tokens[j] {
                assert(self@[j as int] is Newline);
                return j;
            }
            assert(!(self@[j as int] is Newline));
            j += 1;
        }
        j
    }

    /// Adds a definition of `name` with the given value, on a line of its own.
    ///
    /// The line follows the line of the first definition of `after`. Where
    /// `after` is `None` or not defined, or where the line of its definition
    /// is the last and does not end with a newline, the new line is added
    /// at the end, after a newline where one is missing.
    pub fn append_var_ast(&mut self, name: &str, value: &ast::VariableValue, after: Option<&str>)
        ensures
            final(self)@ == with_line(
                old(self)@,
                assignment_of(name@, value@),
                match after {
                    Some(a) => Some(a@),
                    None => None,
                },
            ),
            wf_tokens(old(self)@) && is_identifier(name@) && valid_value(value@) ==> wf_tokens(
                final(self)@,
            ),
    {
        proof {
            if wf_tokens(self@) && is_identifier(name@) && valid_value(value@) {
                lemma_assignment_wf(name@, value@);
                lemma_with_line_wf(
                    self@,
                    assignment_of(name@, value@),
                    match after {
                        Some(a) => Some(a@),
                        None => None,
                    },
                );
            }
        }
        let token = assignment(name, value);
        if let Some(after) = after {
            let found = match self.find_var(after) {
                Some((index, _)) => Some(index),
                None => None,
            };
            if let Some(index) = found {
                let end = self.find_line_end(index);
                if end < self.0.0.len() {
                    let ghost before = self.0.0@;
                    self.0.0.insert(end + 1, Token::Newline);
                    self.0.0.insert(end + 1, token);
                    assert(self@ =~= old(self)@.take(end + 1).push(token@).push(
                        TokenView::Newline,
                    ) + old(self)@.skip(end + 1));
                    return ;
                }
            }
        }
        self.push_line(token);
    }

    /// Replaces the first definition of `name` by one with the given value.
    /// Where `name` is not defined, the definition is added on a line at the end.
    pub fn replace_var_ast(&mut self, name: &str, value: &ast::VariableValue)
        ensures
            final(self)@ == with_replaced(old(self)@, name@, assignment_of(name@, value@)),
            wf_tokens(old(self)@) && is_identifier(name@) && valid_value(value@) ==> wf_tokens(
                final(self)@,
            ),
    {
        proof {
            if wf_tokens(self@) && is_identifier(name@) && valid_value(value@) {
                lemma_assignment_wf(name@, value@);
                lemma_with_replaced_wf(self@, name@, assignment_of(name@, value@));
            }
        }
        let token = assignment(name, value);
        let found = match self.find_var(name) {
            Some((index, _)) => Some(index),
            None => None,
        };
        match found {
            Some(index) => {
                self.0.0.set(index, token);
                assert(self@ =~= old(self)@.update(index as int, token@));
            },
            None => {
                self.push_line(token);
            },
        }
    }

    /// Says whether the line that starts at `from` holds a definition.
    fn has_variable_on_line(&self, from: usize) -> (found: bool)
        requires
            from <= self@.len() + 1,
        ensures
            found == line_has_variable(self@, from as int),
    {
        let tokens = &self.0.0;
        let mut k: usize = from;
        while k < tokens.len()
            invariant
                from <= k,
                tokens_view(tokens@) == self@,
                forall|j: int| from <= j < k ==> !(#[trigger] self@[j] is Variable),
                forall|j: int| from <= j < k ==> !(#[trigger] self@[j] is Newline),
            decreases tokens@.len() - k,
        {
            match &tokens[k] {
                Token::Newline => {
                    assert(self@[k as int] is Newline);
                    proof {
                        lemma_line_end_is(self@, from as int, k as int);
                    }
                    return false;
                },
                Token::Variable(_) => {
                    assert(self@[k as int] is Variable);
                    proof {
                        lemma_line_end(self@, from as int);
                    }
                    return true;
                },
                _ => {
                    assert(!(self@[k as int] is Newline));
                    assert(!(self@[k as int] is Variable));
                },
            }
            k += 1;
        }
        proof {
            lemma_line_end(self@, from as int);
        }
        false
    }

    /// Finds where the run of comment lines that ends just before `index` begins.
    fn find_comment_lines_start(&self, index: usize) -> (start: usize)
        requires
            index <= self@.len(),
        ensures
            start == comment_lines_start(self@, index as int),
            start <= index,
    {
        let tokens = &self.0.0;
        let mut start: usize = index;
        while start >= 2
            invariant
                start <= index <= tokens@.len(),
                tokens_view(tokens@) == self@,
                comment_lines_start(self@, index as int) == comment_lines_start(
                    self@,
                    start as int,
                ),
            decreases start,
        {
            let newline_before = match &tokens[start - 1] {
                Token::Newline => true,
                _ => false,
            };
            let comment = match &tokens[start - 2] {
                Token::Comment(_) => true,
                _ => false,
            };
            let alone = start == 2 || match &tokens[start - 3] {
                Token::Newline => true,
                _ => false,
            };
            assert(newline_before == (self@[start - 1] is Newline));
            assert(comment == (self@[start - 2] is Comment));
            assert(alone == (start == 2 || self@[start - 3] is Newline));
            if newline_before && comment && alone {
                start -= 2;
            } else {
                return start;
            }
        }
        start
    }

    /// Removes the definition at `index`, which must be the index of a definition.
    /// After a removal the indices of the tokens are no longer what they were.
    ///
    /// What follows the definition on its line leaves with it, up to and
    /// including the newline. Where the next line holds no definition, the
    /// comment lines that stand directly above the definition leave too.
    pub fn remove_var(&mut self, index: usize)
        requires
            index < old(self)@.len(),
            old(self)@[index as int] is Variable,
        ensures
            final(self)@ == without_variable(old(self)@, index as int),
            wf_tokens(old(self)@) ==> wf_tokens(final(self)@),
    {
        proof {
            if wf_tokens(self@) {
                lemma_without_variable_wf(self@, index as int);
            }
        }
        let len = self.0.0.len();
        let line_end = self.find_line_end(index);
        let end = if line_end < len {
            line_end + 1
        } else {
            len
        };
        let next_line_defines = line_end < len && self.has_variable_on_line(end);
        let start = if next_line_defines {
            index
        } else {
            self.find_comment_lines_start(index)
        };
        proof {
            if line_end >= len {
                lemma_line_end(self@, line_end as int + 1);
                assert(!line_has_variable(self@, line_end as int + 1));
            }
        }
        let mut tail = self.0.0.split_off(end);
        self.0.0.truncate(start);
        self.0.0.append(&mut tail);
        assert(self@ =~= old(self)@.take(start as int) + old(self)@.skip(end as int));
    }

    /// The texts of all comments, in order, wherever they stand.
    pub fn comments(&self) -> (comments: Vec<&str>)
        ensures
            texts_of(comments@) == comments_of(self@),
    {
        let tokens = &self.0.0;
        let mut comments: Vec<&str> = Vec::new();
        let mut i: usize = 0;
        assert(self@.take(0) =~= Seq::empty());
        assert(texts_of(comments@) =~= Seq::empty());
        while i < tokens.len()
            invariant
                i <= tokens@.len(),
                tokens_view(tokens@) == self@,
                texts_of(comments@) == comments_of(self@.take(i as int)),
            decreases tokens@.len() - i,
        {
            let ghost before = texts_of(comments@);
            assert(self@.take(i as int + 1).drop_last() =~= self@.take(i as int));
            if let Token::Comment(text) = &tokens[i] {
                comments.push(text.as_str());
                assert(texts_of(comments@) =~= before.push(text@));
            }
            i += 1;
        }
        assert(self@.take(i as int) =~= self@);
        comments
    }
}

} // verus!
