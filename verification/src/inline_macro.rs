//! What an inline macro is given by the compiler and what it hands back.
use vstd::prelude::*;

verus! {

/// The form of an expression among the arguments of an inline macro.
#[derive(Clone, Copy, Debug, PartialEq, Eq, Structural)]
pub enum ExprKind {
    Path,
    Literal,
    Parenthesized,
    Tuple,
    /// Any other form of expression.
    Other,
}

/// An argument of an inline macro.
#[derive(Debug)]
pub struct Expr {
    pub kind: ExprKind,
    /// The source text of the expression.
    pub text: String,
    /// The names of the component types that the expression lists, in order.
    pub components: Vec<String>,
}

/// The arguments of an inline macro. `Ptr` is a place in the source.
#[derive(Debug)]
pub struct ExprList<Ptr> {
    pub elements: Vec<Expr>,
    /// The place of the list in the source.
    pub stable_ptr: Ptr,
}

/// The brackets that enclose the arguments of an inline macro.
#[derive(Clone, Copy, Debug, PartialEq, Eq, Structural)]
pub enum WrappedExprList {
    BracketedExprList,
    ParenthesizedExprList,
    BracedExprList,
}

/// A message to the user, with the place in the source that it is about.
#[derive(Debug)]
pub struct PluginDiagnostic<Ptr> {
    pub message: String,
    pub stable_ptr: Ptr,
}

/// What an inline macro has produced so far.
#[derive(Debug)]
pub struct InlineMacroExpanderData<Ptr> {
    pub result_code: String,
    pub code_changed: bool,
    pub diagnostics: Vec<PluginDiagnostic<Ptr>>,
}

/// The mathematical form of a [`PluginDiagnostic`].
pub struct Diagnostic<Ptr> {
    pub message: Seq<char>,
    pub stable_ptr: Ptr,
}

/// The mathematical form of [`InlineMacroExpanderData`].
#[verifier::ext_equal]
pub struct Expansion<Ptr> {
    pub result_code: Seq<char>,
    pub code_changed: bool,
    pub diagnostics: Seq<Diagnostic<Ptr>>,
}

impl<Ptr> View for PluginDiagnostic<Ptr> {
    type V = Diagnostic<Ptr>;

    open spec fn view(&self) -> Diagnostic<Ptr> {
        Diagnostic { message: self.message@, stable_ptr: self.stable_ptr }
    }
}

impl<Ptr> View for InlineMacroExpanderData<Ptr> {
    type V = Expansion<Ptr>;

    open spec fn view(&self) -> Expansion<Ptr> {
        Expansion {
            result_code: self.result_code@,
            code_changed: self.code_changed,
            diagnostics: self.diagnostics@.map_values(|d: PluginDiagnostic<Ptr>| d@),
        }
    }
}

impl<Ptr> Expansion<Ptr> {
    /// The same production with one more diagnostic.
    pub open spec fn report(self, message: Seq<char>, stable_ptr: Ptr) -> Expansion<Ptr> {
        Expansion {
            diagnostics: self.diagnostics.push(Diagnostic { message, stable_ptr }),
            ..self
        }
    }

    /// The same production with code appended.
    pub open spec fn emit(self, code: Seq<char>) -> Expansion<Ptr> {
        Expansion { result_code: self.result_code + code, code_changed: true, ..self }
    }
}

impl<Ptr> InlineMacroExpanderData<Ptr> {
    /// Adds a diagnostic.
    pub fn report(&mut self, message: &str, stable_ptr: Ptr)
        ensures
            final(self)@ == old(self)@.report(message@, stable_ptr),
            final(self).result_code == old(self).result_code,
            final(self).code_changed == old(self).code_changed,
            final(self).diagnostics@.len() == old(self).diagnostics@.len() + 1,
            final(self).diagnostics@.drop_last() == old(self).diagnostics@,
            final(self).diagnostics@.last().message@ == message@,
            final(self).diagnostics@.last().stable_ptr == stable_ptr,
    {
        self.diagnostics.push(PluginDiagnostic { message: message.to_string(), stable_ptr });
        assert(self@.diagnostics =~= old(self)@.report(message@, stable_ptr).diagnostics);
    }

    /// Appends code.
    pub fn emit(&mut self, code: &str)
        ensures
            final(self)@ == old(self)@.emit(code@),
            final(self).result_code@ == old(self).result_code@ + code@,
            final(self).code_changed,
            final(self).diagnostics == old(self).diagnostics,
    {
        self.result_code.append(code);
        self.code_changed = true;
    }
}

/// The mathematical form of what a macro has produced shows each part of it as it is.
pub proof fn law_views_show_each_part<Ptr>(data: InlineMacroExpanderData<Ptr>)
    ensures
        data@.result_code == data.result_code@,
        data@.code_changed == data.code_changed,
        data@.diagnostics.len() == data.diagnostics@.len(),
        forall|i: int|
            0 <= i < data.diagnostics@.len() ==> (#[trigger] data@.diagnostics[i]).message
                == data.diagnostics@[i].message@ && data@.diagnostics[i].stable_ptr
                == data.diagnostics@[i].stable_ptr,
{
}

/// A report adds one diagnostic behind the others and touches nothing else; emitted code stands
/// behind the other code and marks a change, and adds no diagnostic.
pub proof fn law_reports_and_code_go_behind<Ptr>(
    before: Expansion<Ptr>,
    text: Seq<char>,
    stable_ptr: Ptr,
)
    ensures
        before.report(text, stable_ptr).result_code == before.result_code,
        before.report(text, stable_ptr).code_changed == before.code_changed,
        before.report(text, stable_ptr).diagnostics.len() == before.diagnostics.len() + 1,
        before.report(text, stable_ptr).diagnostics.drop_last() == before.diagnostics,
        before.report(text, stable_ptr).diagnostics.last().message == text,
        before.report(text, stable_ptr).diagnostics.last().stable_ptr == stable_ptr,
        before.emit(text).result_code == before.result_code + text,
        before.emit(text).code_changed,
        before.emit(text).diagnostics == before.diagnostics,
{
    assert(before.report(text, stable_ptr).diagnostics.drop_last() =~= before.diagnostics);
}

} // verus!
