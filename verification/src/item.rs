//! The items of a module in core form.

use vstd::prelude::*;
use crate::span::Span;
use crate::term::{Name, NameView, Term, TermView, clone_names};

verus! {

/// An inductive datatype. The type and the constructor types are abstracted
/// over the parameters.
#[derive(Debug)]
pub struct Data {
    pub span: Span,
    pub name: Name,
    pub parameters: Vec<Name>,
    pub ty: Term,
    pub ctors: Vec<(Name, Term)>,
}

/// A definition. The return type and the body are abstracted over the arguments.
#[derive(Debug)]
pub struct Function {
    pub name: Name,
    pub args: Vec<Name>,
    pub ret_ty: Term,
    pub body: Term,
}

/// A constant that is declared with its type only.
#[derive(Debug)]
pub struct Extern {
    pub span: Span,
    pub name: Name,
    pub term: Term,
}

#[derive(Debug)]
pub enum Item {
    Data(Data),
    Fn(Function),
    Extern(Extern),
}

/// The items of one source file, in core form.
#[derive(Debug)]
pub struct Module {
    pub file_name: String,
    pub name: Name,
    pub defs: Vec<Item>,
    pub imports: Vec<Name>,
}

pub ghost struct DataView {
    pub span: Span,
    pub name: NameView,
    pub parameters: Seq<NameView>,
    pub ty: TermView,
    pub ctors: Seq<(NameView, TermView)>,
}

pub ghost struct FunctionView {
    pub name: NameView,
    pub args: Seq<NameView>,
    pub ret_ty: TermView,
    pub body: TermView,
}

pub ghost struct ExternView {
    pub span: Span,
    pub name: NameView,
    pub term: TermView,
}

pub ghost enum ItemView {
    Data(DataView),
    Fn(FunctionView),
    Extern(ExternView),
}

pub ghost struct ModuleView {
    pub file_name: Seq<char>,
    pub name: NameView,
    pub defs: Seq<ItemView>,
    pub imports: Seq<NameView>,
}

impl DeepView for Data {
    type V = DataView;

    open spec fn deep_view(&self) -> DataView {
        self@
    }
}

impl View for Data {
    type V = DataView;

    open spec fn view(&self) -> DataView {
        DataView {
            span: self.span,
            name: self.name@,
            parameters: self.parameters.deep_view(),
            ty: self.ty@,
            ctors: self.ctors.deep_view(),
        }
    }
}

impl DeepView for Function {
    type V = FunctionView;

    open spec fn deep_view(&self) -> FunctionView {
        self@
    }
}

impl View for Function {
    type V = FunctionView;

    open spec fn view(&self) -> FunctionView {
        FunctionView {
            name: self.name@,
            args: self.args.deep_view(),
            ret_ty: self.ret_ty@,
            body: self.body@,
        }
    }
}

impl DeepView for Extern {
    type V = ExternView;

    open spec fn deep_view(&self) -> ExternView {
        self@
    }
}

impl View for Extern {
    type V = ExternView;

    open spec fn view(&self) -> ExternView {
        ExternView { span: self.span, name: self.name@, term: self.term@ }
    }
}

impl View for Item {
    type V = ItemView;

    open spec fn view(&self) -> ItemView {
        match *self {
            Item::Data(d) => ItemView::Data(d@),
            Item::Fn(f) => ItemView::Fn(f@),
            Item::Extern(e) => ItemView::Extern(e@),
        }
    }
}

impl DeepView for Item {
    type V = ItemView;

    open spec fn deep_view(&self) -> ItemView {
        self@
    }
}

impl DeepView for Module {
    type V = ModuleView;

    open spec fn deep_view(&self) -> ModuleView {
        self@
    }
}

impl View for Module {
    type V = ModuleView;

    open spec fn view(&self) -> ModuleView {
        ModuleView {
            file_name: self.file_name@,
            name: self.name@,
            defs: self.defs.deep_view(),
            imports: self.imports.deep_view(),
        }
    }
}

/// Copies a list of constructors.
pub fn clone_ctors(v: &Vec<(Name, Term)>) -> (r: Vec<(Name, Term)>)
    ensures
        r.deep_view() == v.deep_view(),
{
    let mut out: Vec<(Name, Term)> = Vec::new();
    let mut i: usize = 0;
    while i < v.len()
        invariant
            i <= v.len(),
            out.len() == i,
            forall|k: int| 0 <= k < i ==> out[k].deep_view() == v[k].deep_view(),
        decreases v.len() - i,
    {
        out.push((v[i].0.clone(), v[i].1.clone()));
        i += 1;
    }
    assert(out.deep_view() =~= v.deep_view());
    out
}

impl Clone for Data {
    fn clone(&self) -> (r: Data)
        ensures
            r@ == self@,
    {
        Data {
            span: self.span,
            name: self.name.clone(),
            parameters: clone_names(&self.parameters),
            ty: self.ty.clone(),
            ctors: clone_ctors(&self.ctors),
        }
    }
}

impl Clone for Function {
    fn clone(&self) -> (r: Function)
        ensures
            r@ == self@,
    {
        Function {
            name: self.name.clone(),
            args: clone_names(&self.args),
            ret_ty: self.ret_ty.clone(),
            body: self.body.clone(),
        }
    }
}

impl Clone for Extern {
    fn clone(&self) -> (r: Extern)
        ensures
            r@ == self@,
    {
        Extern { span: self.span, name: self.name.clone(), term: self.term.clone() }
    }
}

impl Clone for Item {
    fn clone(&self) -> (r: Item)
        ensures
            r@ == self@,
    {
        match self {
            Item::Data(d) => Item::Data(d.clone()),
            Item::Fn(f) => Item::Fn(f.clone()),
            Item::Extern(e) => Item::Extern(e.clone()),
        }
    }
}

} // verus!
