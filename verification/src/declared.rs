//! What declaring a datatype brings into scope: the type, each constructor
//! and the recursor can be looked up afterwards, and stay so whatever is
//! declared later.

use vstd::prelude::*;
use crate::inductive::{
    ctor_clashes, ctor_declarations, ctor_names, declared_ctor, named_before, recursor_of,
};
use crate::elaborate::{ctor_surface_names, names_constructor, ElabCxView};
use crate::item::{DataView, ItemView};
use crate::scope::module_in_order;
use crate::syntax;
use crate::term::TermView;
use crate::term::NameView;
use crate::typeck::{index_of, DeclarationView, KindView, TyCtxtView};

verus! {

/// The declaration that a datatype makes of its type.
pub open spec fn type_declaration(d: DataView, rec_name: NameView) -> DeclarationView {
    DeclarationView {
        name: d.name,
        ty: d.ty,
        kind: KindView::Datatype {
            params: d.parameters.len() as usize,
            ctors: ctor_names(d.ctors, d.ctors.len()),
            recursor: rec_name,
        },
    }
}

/// Whether the constructor at place `i` of `d` can be looked up in `cx`
/// under its name, with its type and its place in the datatype.
pub open spec fn ctor_declared(cx: TyCtxtView, d: DataView, next: usize, i: int) -> bool {
    cx.lookup(d.ctors[i].0) == Some(
        DeclarationView {
            name: d.ctors[i].0,
            ty: d.ctors[i].1,
            kind: KindView::Constructor {
                datatype: d.name,
                index: i as usize,
                fields: recursor_of(d, next)->0.shapes[i].fields,
            },
        },
    )
}

/// Whether the datatype `d` is declared in `cx` as `declare_datatype`
/// declares it from a context whose next local has the number `next`: its
/// type, each constructor, and the recursor under the name of the datatype
/// followed by `rec`, with the type of the eliminator, can be looked up.
pub open spec fn datatype_declared(cx: TyCtxtView, d: DataView, next: usize) -> bool {
    &&& recursor_of(d, next) is Some
    &&& TyCtxtView::recursor_name(d.name) is Some
    &&& cx.lookup(d.name) == Some(type_declaration(d, TyCtxtView::recursor_name(d.name)->0))
    &&& forall|i: int| 0 <= i < d.ctors.len() ==> #[trigger] ctor_declared(cx, d, next, i)
    &&& cx.lookup(TyCtxtView::recursor_name(d.name)->0) == Some(
        DeclarationView {
            name: TyCtxtView::recursor_name(d.name)->0,
            ty: recursor_of(d, next)->0.ty,
            kind: KindView::Recursor {
                datatype: d.name,
                params: d.parameters.len() as usize,
                ctors: recursor_of(d, next)->0.shapes,
            },
        },
    )
}

/// Whether `after` declares what `cx` declares, in the same order, and
/// maybe more behind it.
pub open spec fn extends(after: TyCtxtView, cx: TyCtxtView) -> bool {
    cx.declarations.len() <= after.declarations.len() && after.declarations.subrange(
        0,
        cx.declarations.len() as int,
    ) == cx.declarations
}

/// A lookup finds the first declaration of a name.
pub proof fn lemma_index_of_first(decls: Seq<DeclarationView>, n: NameView, i: int, p: int)
    requires
        0 <= i <= p < decls.len(),
        decls[p].name.same(n),
        forall|k: int| i <= k < p ==> !(#[trigger] decls[k]).name.same(n),
    ensures
        index_of(decls, n, i) == p,
    decreases p - i,
{
    if i < p {
        assert(!decls[i].name.same(n));
        lemma_index_of_first(decls, n, i + 1, p);
    }
}

/// A lookup that finds nothing has passed every declaration.
pub proof fn lemma_index_of_none(decls: Seq<DeclarationView>, n: NameView, i: int)
    requires
        0 <= i <= decls.len(),
    ensures
        i <= index_of(decls, n, i) <= decls.len(),
        forall|k: int| i <= k < index_of(decls, n, i) ==> !(#[trigger] decls[k]).name.same(n),
        index_of(decls, n, i) < decls.len() ==> decls[index_of(decls, n, i)].name.same(n),
    decreases decls.len() - i,
{
    if i < decls.len() && !decls[i].name.same(n) {
        lemma_index_of_none(decls, n, i + 1);
    }
}

/// What can be looked up stays what it is when more is declared.
pub proof fn lemma_lookup_stable(cx: TyCtxtView, after: TyCtxtView, n: NameView)
    requires
        extends(after, cx),
        cx.lookup(n) is Some,
    ensures
        after.lookup(n) == cx.lookup(n),
{
    lemma_index_of_none(cx.declarations, n, 0);
    let p = index_of(cx.declarations, n, 0);
    assert forall|k: int| 0 <= k <= p implies (#[trigger] after.declarations[k])
        == cx.declarations[k] by {
        assert(after.declarations.subrange(0, cx.declarations.len() as int)[k]
            == after.declarations[k]);
    }
    lemma_index_of_first(after.declarations, n, 0, p);
}

/// A datatype that is declared stays declared when more is declared.
pub proof fn lemma_declared_stable(cx: TyCtxtView, after: TyCtxtView, d: DataView, next: usize)
    requires
        extends(after, cx),
        datatype_declared(cx, d, next),
    ensures
        datatype_declared(after, d, next),
{
    lemma_lookup_stable(cx, after, d.name);
    lemma_lookup_stable(cx, after, TyCtxtView::recursor_name(d.name)->0);
    assert forall|i: int| 0 <= i < d.ctors.len() implies #[trigger] ctor_declared(
        after,
        d,
        next,
        i,
    ) by {
        assert(ctor_declared(cx, d, next, i));
        lemma_lookup_stable(cx, after, d.ctors[i].0);
    }
}

/// Among constructors that pass the check, none clashes.
pub proof fn lemma_no_ctor_clashes(cx: TyCtxtView, d: DataView, rec_name: NameView, n: nat)
    requires
        n <= d.ctors.len(),
        declared_ctor(cx, d, rec_name, n) is None,
    ensures
        forall|i: int| 0 <= i < n ==> !#[trigger] ctor_clashes(cx, d, rec_name, i),
    decreases n,
{
    if n > 0 {
        lemma_no_ctor_clashes(cx, d, rec_name, (n - 1) as nat);
    }
}

/// A name that no constructor before place `n` has differs from each of them.
pub proof fn lemma_not_named_before(ctors: Seq<(NameView, crate::term::TermView)>, name: NameView, n: nat)
    requires
        n <= ctors.len(),
        !named_before(ctors, name, n),
    ensures
        forall|k: int| 0 <= k < n ==> !(#[trigger] ctors[k]).0.same(name),
    decreases n,
{
    if n > 0 {
        lemma_not_named_before(ctors, name, (n - 1) as nat);
    }
}

/// Declaring a datatype brings it into scope: afterwards the type, each
/// constructor and the recursor can be looked up under their names, the
/// recursor with the type of the eliminator, and what was declared before
/// is declared still.
pub proof fn lemma_datatype_declared(cx: TyCtxtView, d: DataView)
    requires
        cx.declare_datatype(d).0 is Ok,
    ensures
        extends(cx.declare_datatype(d).1, cx),
        datatype_declared(cx.declare_datatype(d).1, d, cx.local_counter),
        cx.declare_datatype(d).1.in_scope(d.name),
        cx.declare_datatype(d).1.in_scope(TyCtxtView::recursor_name(d.name)->0),
{
    let after = cx.declare_datatype(d).1;
    let rec_name = TyCtxtView::recursor_name(d.name)->0;
    let rec = recursor_of(d, cx.local_counter)->0;
    let old = cx.declarations;
    let all = after.declarations;
    let m = d.ctors.len() as int;
    crate::inductive::lemma_minors_len(d, cx.local_counter);
    crate::scope::lemma_ctor_declarations(d, rec.shapes, d.ctors.len());
    let ctor_decls = ctor_declarations(d, rec.shapes, d.ctors.len());
    lemma_ctor_declaration_names(d, rec.shapes, d.ctors.len());
    assert(all.len() == old.len() + 1 + m + 1);
    assert(all.subrange(0, old.len() as int) =~= old);
    assert(all[old.len() as int] == type_declaration(d, rec_name));
    assert forall|i: int| 0 <= i < m implies all[old.len() + 1 + i] == #[trigger] ctor_decls[i] by {}
    assert(all[old.len() + 1 + m].name == rec_name);
    lemma_no_ctor_clashes(cx, d, rec_name, d.ctors.len());
    // nothing of this was declared before
    lemma_index_of_none(old, d.name, 0);
    lemma_index_of_none(old, rec_name, 0);
    assert(!rec_name.same(d.name)) by {
        assert(rec_name->components.len() == d.name->components.len() + 1);
    }
    // the type
    assert forall|k: int| 0 <= k < old.len() implies !(#[trigger] all[k]).name.same(d.name) by {
        assert(all[k] == old[k]);
    }
    lemma_index_of_first(all, d.name, 0, old.len() as int);
    // the recursor
    assert forall|k: int| 0 <= k < old.len() + 1 + m implies !(#[trigger] all[k]).name.same(
        rec_name,
    ) by {
        if k < old.len() {
            assert(all[k] == old[k]);
        } else if k == old.len() {
        } else {
            let i = k - old.len() - 1;
            assert(all[k] == ctor_decls[i]);
            assert(!ctor_clashes(cx, d, rec_name, i));
        }
    }
    lemma_index_of_first(all, rec_name, 0, old.len() + 1 + m);
    // the constructors
    assert forall|i: int| 0 <= i < m implies #[trigger] ctor_declared(
        after,
        d,
        cx.local_counter,
        i,
    ) by {
        let name = d.ctors[i].0;
        assert(!ctor_clashes(cx, d, rec_name, i));
        lemma_index_of_none(old, name, 0);
        lemma_not_named_before(d.ctors, name, i as nat);
        assert forall|k: int| 0 <= k < old.len() + 1 + i implies !(#[trigger] all[k]).name.same(
            name,
        ) by {
            if k < old.len() {
                assert(all[k] == old[k]);
            } else if k == old.len() {
            } else {
                let e = k - old.len() - 1;
                assert(all[k] == ctor_decls[e]);
                assert(!d.ctors[e].0.same(name));
            }
        }
        assert(all[old.len() + 1 + i] == ctor_decls[i]);
        lemma_index_of_first(all, name, 0, old.len() + 1 + i);
    }
}

/// The declarations of the constructors of a datatype carry the
/// constructors' names and places.
pub proof fn lemma_ctor_declaration_names(d: DataView, shapes: Seq<crate::typeck::CtorShapeView>, n: nat)
    requires
        n <= d.ctors.len(),
        n <= shapes.len(),
    ensures
        forall|i: int|
            0 <= i < n ==> #[trigger] ctor_declarations(d, shapes, n)[i] == (DeclarationView {
                name: d.ctors[i].0,
                ty: d.ctors[i].1,
                kind: KindView::Constructor {
                    datatype: d.name,
                    index: i as usize,
                    fields: shapes[i].fields,
                },
            }),
    decreases n,
{
    if n > 0 {
        lemma_ctor_declaration_names(d, shapes, (n - 1) as nat);
        crate::scope::lemma_ctor_declarations(d, shapes, (n - 1) as nat);
    }
}


/// Whether the datatype `d` is declared in `cx`, from whatever number its
/// recursor's locals were minted.
pub open spec fn data_in_scope(cx: TyCtxtView, d: DataView) -> bool {
    exists|next: usize| #[trigger] datatype_declared(cx, d, next)
}

/// Whether the item, if it is a datatype, is declared in `cx`.
pub open spec fn item_in_scope(cx: TyCtxtView, item: ItemView) -> bool {
    match item {
        ItemView::Data(d) => data_in_scope(cx, d),
        _ => true,
    }
}

/// Inference declares nothing.
pub proof fn lemma_infer_declares_nothing(cx: TyCtxtView, fuel: nat, t: TermView)
    ensures
        cx.infer(fuel, t).1.declarations == cx.declarations,
    decreases fuel, 0nat,
{
    if fuel > 0 {
        match t {
            TermView::App { span, fun, arg } => {
                lemma_infer_declares_nothing(cx, (fuel - 1) as nat, *fun);
                let (first, c1) = cx.infer((fuel - 1) as nat, *fun);
                lemma_infer_declares_nothing(c1, (fuel - 1) as nat, *arg);
            },
            TermView::Forall { binder, term, .. } => {
                lemma_infer_under_declares_nothing(cx, (fuel - 1) as nat, binder, *term);
            },
            TermView::Lambda { binder, body, .. } => {
                lemma_infer_under_declares_nothing(cx, (fuel - 1) as nat, binder, *body);
            },
            _ => {},
        }
    }
}

pub proof fn lemma_infer_under_declares_nothing(
    cx: TyCtxtView,
    fuel: nat,
    binder: crate::term::BinderView,
    body: TermView,
)
    ensures
        cx.infer_under(fuel, binder, body).1.declarations == cx.declarations,
    decreases fuel, 1nat,
{
    if cx.local_counter != usize::MAX {
        let local = cx.next_local(binder.name.repr(), *binder.ty);
        lemma_infer_declares_nothing(cx.minted(), fuel, *binder.ty);
        let (first, c1) = cx.minted().infer(fuel, *binder.ty);
        lemma_infer_declares_nothing(c1, fuel, body.open_with(local.to_term(), 0));
    }
}

/// Checking a term declares nothing.
pub proof fn lemma_check_term_declares_nothing(cx: TyCtxtView, t: TermView, ty: TermView)
    ensures
        cx.type_check_term(t, ty).1.declarations == cx.declarations,
{
    lemma_infer_declares_nothing(cx, crate::term::deeper(crate::infer::height(t)) as nat, t);
}

/// Checking constructors declares nothing.
pub proof fn lemma_check_ctors_declares_nothing(
    cx: TyCtxtView,
    ctors: Seq<(NameView, TermView)>,
    n: nat,
)
    ensures
        cx.check_ctors(ctors, n).1.declarations == cx.declarations,
    decreases n,
{
    if n > 0 && n <= ctors.len() {
        lemma_check_ctors_declares_nothing(cx, ctors, (n - 1) as nat);
        let (before, c1) = cx.check_ctors(ctors, (n - 1) as nat);
        lemma_check_term_declares_nothing(c1, ctors[n - 1].1, TermView::Type);
    }
}

/// Checking the items of a module declares nothing.
pub proof fn lemma_check_items_declares_nothing(cx: TyCtxtView, items: Seq<ItemView>, n: nat)
    ensures
        cx.check_items(items, n).1.declarations == cx.declarations,
    decreases n,
{
    if n > 0 && n <= items.len() {
        lemma_check_items_declares_nothing(cx, items, (n - 1) as nat);
        let (before, c1) = cx.check_items(items, (n - 1) as nat);
        match items[n - 1] {
            ItemView::Data(d) => {
                lemma_check_term_declares_nothing(c1, d.ty, TermView::Type);
                let (first, c2) = c1.type_check_term(d.ty, TermView::Type);
                lemma_check_ctors_declares_nothing(c2, d.ctors, d.ctors.len());
            },
            ItemView::Fn(f) => {
                lemma_check_term_declares_nothing(c1, f.ret_ty, TermView::Type);
                let (first, c2) = c1.type_check_term(f.ret_ty, TermView::Type);
                lemma_check_term_declares_nothing(c2, f.body, f.ret_ty);
            },
            ItemView::Extern(e) => {
                lemma_check_term_declares_nothing(c1, e.term, TermView::Type);
            },
        }
    }
}

/// Declaring an item leaves every datatype declared that was, and declares
/// the item if it is a datatype.
pub proof fn lemma_declare_in_scope(cx: ElabCxView, item: ItemView)
    requires
        cx.declare(item).0 is Ok,
    ensures
        extends(cx.declare(item).1.cx, cx.cx),
        item_in_scope(cx.declare(item).1.cx, item),
        cx.declare(item).1.constructors == cx.constructors,
{
    match item {
        ItemView::Data(d) => {
            lemma_datatype_declared(cx.cx, d);
            assert(datatype_declared(cx.declare(item).1.cx, d, cx.cx.local_counter));
        },
        ItemView::Fn(f) => {
            let after = cx.cx.declare_def(f);
            assert(after.declarations.subrange(0, cx.cx.declarations.len() as int)
                =~= cx.cx.declarations);
        },
        ItemView::Extern(e) => {
            let after = cx.cx.declare_extern(e);
            assert(after.declarations.subrange(0, cx.cx.declarations.len() as int)
                =~= cx.cx.declarations);
        },
    }
}

/// A datatype in scope stays in scope when more is declared.
pub proof fn lemma_in_scope_stable(cx: TyCtxtView, after: TyCtxtView, item: ItemView)
    requires
        extends(after, cx),
        item_in_scope(cx, item),
    ensures
        item_in_scope(after, item),
{
    match item {
        ItemView::Data(d) => {
            let next = choose|next: usize| #[trigger] datatype_declared(cx, d, next);
            lemma_declared_stable(cx, after, d, next);
        },
        _ => {},
    }
}

/// Every datatype among the items that the second pass gives is declared
/// in the context that the pass leaves, and the pass records no
/// constructor name.
pub proof fn lemma_items_in_scope(cx: ElabCxView, items: Seq<syntax::ItemView>, n: nat)
    requires
        module_in_order(cx),
    ensures
        cx.elaborate_items(items, n).1.constructors == cx.constructors,
        cx.elaborate_items(items, n).0 matches Ok(done) ==> forall|i: int|
            0 <= i < done.defs.len() ==> item_in_scope(
                cx.elaborate_items(items, n).1.cx,
                #[trigger] done.defs[i],
            ),
    decreases n,
{
    if n == 0 || n > items.len() {
    } else {
        lemma_items_in_scope(cx, items, (n - 1) as nat);
        crate::scope::lemma_items_placed(cx, items, (n - 1) as nat);
        let (before, s1) = cx.elaborate_items(items, (n - 1) as nat);
        if before is Ok {
            crate::scope::lemma_def_placed(s1, items[n - 1]);
            let (r, s2) = s1.elaborate_def(items[n - 1]);
            match r {
                Ok(Some(item)) => {
                    let (d, s3) = s2.declare(item);
                    if d is Ok {
                        lemma_declare_in_scope(s2, item);
                        let defs = before->Ok_0.defs.push(item);
                        assert forall|i: int| 0 <= i < defs.len() implies item_in_scope(
                            s3.cx,
                            #[trigger] defs[i],
                        ) by {
                            if i < before->Ok_0.defs.len() {
                                assert(defs[i] == before->Ok_0.defs[i]);
                                assert(item_in_scope(s1.cx, before->Ok_0.defs[i]));
                                assert(extends(s3.cx, s1.cx));
                                lemma_in_scope_stable(s1.cx, s3.cx, defs[i]);
                            }
                        }
                    }
                },
                Ok(None) => {
                    assert forall|i: int| 0 <= i < before->Ok_0.defs.len() implies item_in_scope(
                        s2.cx,
                        #[trigger] before->Ok_0.defs[i],
                    ) by {
                        assert(s2.cx.declarations == s1.cx.declarations);
                        assert(extends(s2.cx, s1.cx)) by {
                            assert(s2.cx.declarations.subrange(
                                0,
                                s1.cx.declarations.len() as int,
                            ) =~= s1.cx.declarations);
                        }
                        lemma_in_scope_stable(s1.cx, s2.cx, before->Ok_0.defs[i]);
                    }
                },
                Err(_) => {
                    assert forall|i: int| 0 <= i < before->Ok_0.defs.len() implies item_in_scope(
                        s2.cx,
                        #[trigger] before->Ok_0.defs[i],
                    ) by {
                        assert(extends(s2.cx, s1.cx)) by {
                            assert(s2.cx.declarations.subrange(
                                0,
                                s1.cx.declarations.len() as int,
                            ) =~= s1.cx.declarations);
                        }
                        lemma_in_scope_stable(s1.cx, s2.cx, before->Ok_0.defs[i]);
                    }
                },
            }
        }
    }
}

/// A name of a list of constructor names names a constructor of the list,
/// and of every list that the list is part of.
pub proof fn lemma_names_constructor(
    front: Seq<syntax::NameView>,
    names: Seq<syntax::NameView>,
    back: Seq<syntax::NameView>,
    k: int,
    n: nat,
)
    requires
        0 <= k < names.len(),
        front.len() + k < n <= (front + names + back).len(),
    ensures
        names_constructor(front + names + back, names[k], n),
    decreases n,
{
    let all = front + names + back;
    if n - 1 == front.len() + k {
        assert(all[n - 1] == names[k]);
    } else {
        lemma_names_constructor(front, names, back, k, (n - 1) as nat);
    }
}

/// The surface names of a list of constructors, one by one.
pub proof fn lemma_ctor_surface_names(ctors: Seq<(syntax::NameView, syntax::TermView)>, n: nat)
    requires
        n <= ctors.len(),
    ensures
        ctor_surface_names(ctors, n).len() == n,
        forall|k: int| 0 <= k < n ==> #[trigger] ctor_surface_names(ctors, n)[k] == ctors[k].0,
    decreases n,
{
    if n > 0 {
        lemma_ctor_surface_names(ctors, (n - 1) as nat);
    }
}

/// Whether the constructor names of the datatype declaration are all among `known`.
pub open spec fn ctors_known(known: Seq<syntax::NameView>, item: syntax::ItemView) -> bool {
    match item {
        syntax::ItemView::Inductive(d) => forall|k: int|
            0 <= k < d.ctors.len() ==> names_constructor(
                known,
                (#[trigger] d.ctors[k]).0,
                known.len(),
            ),
        _ => true,
    }
}

/// The first pass records the constructor names of every datatype that it
/// passes, behind those that were recorded before.
pub proof fn lemma_prescan_constructors(cx: ElabCxView, items: Seq<syntax::ItemView>, n: nat)
    requires
        n <= items.len(),
    ensures
        cx.prescan(items, n).0 is Ok ==> {
            let after = cx.prescan(items, n).1.constructors;
            &&& cx.constructors.len() <= after.len()
            &&& after.subrange(0, cx.constructors.len() as int) == cx.constructors
            &&& forall|i: int| 0 <= i < n ==> ctors_known(after, #[trigger] items[i])
        },
    decreases n,
{
    if n > 0 {
        lemma_prescan_constructors(cx, items, (n - 1) as nat);
        let (before, s1) = cx.prescan(items, (n - 1) as nat);
        if before is Ok && cx.prescan(items, n).0 is Ok {
            let after = cx.prescan(items, n).1.constructors;
            let held = s1.constructors;
            match items[n - 1] {
                syntax::ItemView::Inductive(d) => {
                    let names = ctor_surface_names(d.ctors, d.ctors.len());
                    lemma_ctor_surface_names(d.ctors, d.ctors.len());
                    assert(after == held + names);
                    assert(after =~= held + names + Seq::<syntax::NameView>::empty());
                    assert(after.subrange(0, cx.constructors.len() as int) =~= cx.constructors) by {
                        assert(held.subrange(0, cx.constructors.len() as int) == cx.constructors);
                    }
                    assert forall|i: int| 0 <= i < n implies ctors_known(
                        after,
                        #[trigger] items[i],
                    ) by {
                        if i < n - 1 {
                            assert(ctors_known(held, items[i]));
                            lemma_known_grows(held, names, items[i]);
                        } else {
                            assert forall|k: int| 0 <= k < d.ctors.len() implies names_constructor(
                                after,
                                (#[trigger] d.ctors[k]).0,
                                after.len(),
                            ) by {
                                lemma_names_constructor(
                                    held,
                                    names,
                                    Seq::empty(),
                                    k,
                                    after.len(),
                                );
                            }
                        }
                    }
                },
                _ => {
                    assert(after == held);
                },
            }
        }
    }
}

/// A name that names a constructor of a list names one of every longer list.
pub proof fn lemma_name_known_grows(
    known: Seq<syntax::NameView>,
    more: Seq<syntax::NameView>,
    name: syntax::NameView,
    n: nat,
)
    requires
        n <= known.len(),
        names_constructor(known, name, n),
    ensures
        names_constructor(known + more, name, (known + more).len()),
{
    let all = known + more;
    lemma_name_known_prefix(known, more, name, n);
    lemma_name_known_up(all, name, n, all.len());
}

pub proof fn lemma_name_known_prefix(
    known: Seq<syntax::NameView>,
    more: Seq<syntax::NameView>,
    name: syntax::NameView,
    n: nat,
)
    requires
        n <= known.len(),
        names_constructor(known, name, n),
    ensures
        names_constructor(known + more, name, n),
    decreases n,
{
    if n > 0 {
        assert((known + more)[n - 1] == known[n - 1]);
        if !known[n - 1].same(name) {
            lemma_name_known_prefix(known, more, name, (n - 1) as nat);
        }
    }
}

pub proof fn lemma_name_known_up(all: Seq<syntax::NameView>, name: syntax::NameView, n: nat, m: nat)
    requires
        n <= m <= all.len(),
        names_constructor(all, name, n),
    ensures
        names_constructor(all, name, m),
    decreases m,
{
    if m > n {
        lemma_name_known_up(all, name, n, (m - 1) as nat);
    }
}

/// The constructor names of a datatype that are known stay known when more are recorded.
pub proof fn lemma_known_grows(
    known: Seq<syntax::NameView>,
    more: Seq<syntax::NameView>,
    item: syntax::ItemView,
)
    requires
        ctors_known(known, item),
    ensures
        ctors_known(known + more, item),
{
    match item {
        syntax::ItemView::Inductive(d) => {
            assert forall|k: int| 0 <= k < d.ctors.len() implies names_constructor(
                known + more,
                (#[trigger] d.ctors[k]).0,
                (known + more).len(),
            ) by {
                lemma_name_known_grows(known, more, d.ctors[k].0, known.len());
            }
        },
        _ => {},
    }
}

/// After a module is elaborated, every datatype of it is in scope: its
/// type, its constructors and its recursor, the recursor with the type of
/// the eliminator; and the constructor names of every datatype that the
/// module declares are recorded.
pub proof fn lemma_module_declares(cx: ElabCxView, module: syntax::ModuleView, path: Seq<char>)
    requires
        module_in_order(cx),
    ensures
        cx.elaborate_module(module, path).0 matches Ok(m) ==> {
            let after = cx.elaborate_module(module, path).1;
            &&& forall|i: int| 0 <= i < m.defs.len() ==> item_in_scope(after.cx, #[trigger] m.defs[i])
            &&& forall|i: int|
                0 <= i < module.items.len() ==> ctors_known(
                    after.constructors,
                    #[trigger] module.items[i],
                )
        },
{
    let (n, s1) = cx.elaborate_global_name(module.name);
    if n is Ok {
        assert(crate::scope::globals_qualified(s1.globals));
        crate::scope::lemma_prescan_in_order(s1, module.items, module.items.len());
        lemma_prescan_constructors(s1, module.items, module.items.len());
        let (scanned, s2) = s1.prescan(module.items, module.items.len());
        if scanned is Ok {
            lemma_items_in_scope(s2, module.items, module.items.len());
            let (out, s3) = s2.elaborate_items(module.items, module.items.len());
            if out is Ok && out->Ok_0.errors.len() == 0 {
                let m = crate::item::ModuleView {
                    file_name: path,
                    name: n->Ok_0,
                    defs: out->Ok_0.defs,
                    imports: scanned->Ok_0,
                };
                lemma_check_items_declares_nothing(s3.cx, m.defs, m.defs.len());
                let (cs, checked) = s3.cx.type_check_module(m);
                if cs is Ok {
                    assert(extends(checked, s3.cx)) by {
                        assert(checked.declarations.subrange(0, s3.cx.declarations.len() as int)
                            =~= s3.cx.declarations);
                    }
                    assert forall|i: int| 0 <= i < m.defs.len() implies item_in_scope(
                        checked,
                        #[trigger] m.defs[i],
                    ) by {
                        lemma_in_scope_stable(s3.cx, checked, m.defs[i]);
                    }
                }
            }
        }
    }
}

} // verus!
