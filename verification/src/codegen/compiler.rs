//! The code generator's state, and the lowering of the front end's syntax tree.
use vstd::prelude::*;
use inkwell::builder::Builder;
use inkwell::context::Context;
use inkwell::module::Module;
use inkwell::types::BasicTypeEnum;
use inkwell::values::{FunctionValue, PointerValue};
use crate::ast::{lemma_names_bound_in_push, names_bound_in, Statement, TypeNode};
use crate::frontend::ast::{ASTNode, NodeV};
use crate::text::str_eq;
use super::llvm::{
    array_type, bool_type, build_alloca, build_store, const_int, create_builder, create_module,
    f32_type, f64_type, first_block, i128_type, i16_type, i32_type, i64_type, i8_type,
    int_as_basic, int_ptr_type, module_functions, position_at_end, print_module, ptr_as_basic,
    verify_module,
};

verus! {

/// Why lowering a node failed.
#[derive(Debug, Clone, Copy, PartialEq, Eq)]
pub enum CodegenError {
    /// A declaration names a type that code generation does not support.
    UnsupportedType,
    /// The LLVM builder refused an instruction.
    Builder,
}

/// Whether a type has an LLVM representation: every type but a map, and
/// arrays of such types.
pub open spec fn lowers(ty: TypeNode) -> bool
    decreases ty,
{
    match ty {
        TypeNode::HashMap(_, _) => false,
        TypeNode::Array(inner, _) => lowers(*inner),
        _ => true,
    }
}

/// Whether an LLVM type has the kind that a type lowers to: integers for
/// `bool` and the integer types, floats, a pointer for `[u8]`, and arrays.
pub open spec fn lowers_to(ty: TypeNode, t: BasicTypeEnum) -> bool {
    match ty {
        TypeNode::Bool | TypeNode::I8 | TypeNode::I16 | TypeNode::I32 | TypeNode::I64
        | TypeNode::I128 => t is IntType,
        TypeNode::F32 | TypeNode::F64 => t is FloatType,
        TypeNode::U8Array => t is PointerType,
        TypeNode::Array(_, _) => t is ArrayType,
        TypeNode::HashMap(_, _) => false,
    }
}

/// The names that the front end's nodes declare as variables.
pub open spec fn declared_names(nodes: Seq<ASTNode>) -> Set<Seq<char>> {
    Set::new(
        |n: Seq<char>|
            exists|i: int|
                0 <= i < nodes.len() && (#[trigger] nodes[i]@ matches NodeV::VarDecl { name, .. }
                    && name == n),
    )
}

/// In a list with no repeated element, the element at `i` is found at `i`.
pub proof fn lemma_index_of_distinct<A>(s: Seq<A>, i: int)
    requires
        s.no_duplicates(),
        0 <= i < s.len(),
    ensures
        s.index_of(s[i]) == i,
{
    assert(0 <= i < s.len() && s[i] == s[i]);
    let j = s.index_of(s[i]);
    assert(0 <= j < s.len() && s[j] == s[i]);
}

/// The type names that a front-end declaration may give.
pub open spec fn supported_declaration(n: NodeV) -> bool {
    match n {
        NodeV::VarDecl { declared_type, .. } => declared_type == "i32"@ || declared_type == "i64"@,
        _ => true,
    }
}

/// The state of code generation: the LLVM context, the module being built,
/// the builder positioned in it, and the storage of each variable in scope,
/// at most one per name.
pub struct Compiler<'ctx> {
    pub context: &'ctx Context,
    pub module: Module<'ctx>,
    pub builder: Builder<'ctx>,
    pub named_values: Vec<(String, PointerValue<'ctx>)>,
}

impl<'ctx> Compiler<'ctx> {
    /// The names of the variables bound, in the order they were first bound.
    pub open spec fn names(&self) -> Seq<Seq<char>> {
        self.named_values@.map_values(|e: (String, PointerValue<'ctx>)| e.0@)
    }

    /// No variable is bound twice.
    pub open spec fn wf(&self) -> bool {
        self.names().no_duplicates()
    }

    /// The storage each variable name is bound to.
    pub open spec fn bindings(&self) -> Map<Seq<char>, PointerValue<'ctx>> {
        Map::new(
            |k: Seq<char>| self.names().contains(k),
            |k: Seq<char>| self.named_values@[self.names().index_of(k)].1,
        )
    }

    /// A compiler with an empty module and no variables.
    pub fn new(context: &'ctx Context) -> (c: Self)
        ensures
            c.wf(),
            c.context == context,
            module_functions(c.module) == Set::<Seq<char>>::empty(),
            c.bindings() == Map::<Seq<char>, PointerValue<'ctx>>::empty(),
    {
        let module = create_module(context, "spaceship");
        let builder = create_builder(context);
        let c = Compiler { context, module, builder, named_values: Vec::new() };
        assert(c.names() =~= Seq::<Seq<char>>::empty());
        assert(c.bindings() =~= Map::<Seq<char>, PointerValue<'ctx>>::empty());
        c
    }

    /// Binds a variable name to its storage, replacing an earlier binding of the name.
    pub fn bind(&mut self, name: String, value: PointerValue<'ctx>)
        requires
            old(self).wf(),
        ensures
            final(self).wf(),
            final(self).bindings() == old(self).bindings().insert(name@, value),
            final(self).context == old(self).context,
            final(self).module == old(self).module,
            final(self).builder == old(self).builder,
    {
        let ghost names = self.names();
        let ghost old_bindings = self.bindings();
        let ghost n = name@;
        let mut i: usize = 0;
        while i < self.named_values.len()
            invariant
                i <= self.named_values.len(),
                self.names() == names,
                self.bindings() == old_bindings,
                old_bindings == old(self).bindings(),
                self.context == old(self).context,
                self.module == old(self).module,
                self.builder == old(self).builder,
                names == old(self).names(),
                names.no_duplicates(),
                n == name@,
                forall|j: int| 0 <= j < i ==> names[j] != n,
            decreases self.named_values.len() - i,
        {
            assert(names[i as int] == self.named_values@[i as int].0@);
            if str_eq(self.named_values[i].0.as_str(), name.as_str()) {
                let ghost before = self.named_values@;
                assert(old_bindings == Map::new(
                    |k: Seq<char>| names.contains(k),
                    |k: Seq<char>| before[names.index_of(k)].1,
                ));
                self.named_values.set(i, (name, value));
                assert(self.names() =~= names);
                proof {
                    lemma_index_of_distinct(names, i as int);
                    assert forall|k: Seq<char>| #[trigger] names.contains(k) implies
                        self.bindings()[k] == old_bindings.insert(n, value)[k] by {
                        let j = names.index_of(k);
                        assert(names[j] == k);
                        if k != n {
                            assert(j != i);
                            assert(self.named_values@[j] == before[j]);
                        }
                    }
                }
                assert(self.bindings() =~= old_bindings.insert(n, value));
                return;
            }
            i = i + 1;
        }
        assert(!names.contains(n));
        let ghost before = self.named_values@;
        assert(old_bindings == Map::new(
            |k: Seq<char>| names.contains(k),
            |k: Seq<char>| before[names.index_of(k)].1,
        ));
        self.named_values.push((name, value));
        assert(self.names() =~= names.push(n));
        proof {
            let ns = names.push(n);
            assert(ns[names.len() as int] == n);
            lemma_index_of_distinct(ns, names.len() as int);
            assert forall|k: Seq<char>| #[trigger] ns.contains(k) implies names.contains(k) || k
                == n by {
                let j = ns.index_of(k);
                assert(ns[j] == k);
                if j < names.len() {
                    assert(names[j] == k);
                }
            }
            assert forall|k: Seq<char>| #[trigger] names.contains(k) implies ns.contains(k) by {
                let j = names.index_of(k);
                assert(names[j] == k);
                assert(ns[j] == k);
            }
            assert(ns.contains(n));
            assert forall|k: Seq<char>| #[trigger] ns.contains(k) implies self.bindings()[k]
                == old_bindings.insert(n, value)[k] by {
                if k != n {
                    let j = names.index_of(k);
                    assert(names[j] == k);
                    assert(ns[j] == k);
                    lemma_index_of_distinct(ns, j);
                    assert(self.named_values@[j] == before[j]);
                }
            }
        }
        assert(self.bindings() =~= old_bindings.insert(n, value));
    }

    /// Forgets every variable.
    pub fn clear_names(&mut self)
        ensures
            final(self).wf(),
            final(self).bindings() == Map::<Seq<char>, PointerValue<'ctx>>::empty(),
            final(self).context == old(self).context,
            final(self).module == old(self).module,
            final(self).builder == old(self).builder,
    {
        self.named_values.clear();
        assert(self.names() =~= Seq::<Seq<char>>::empty());
        assert(self.bindings() =~= Map::<Seq<char>, PointerValue<'ctx>>::empty());
    }

    /// The LLVM type of a Spaceship type: integers for `bool` and the integer
    /// types, floats, an `i8` pointer for `[u8]`, arrays; maps have none.
    pub fn type_to_llvm(&self, ty: &TypeNode) -> (r: Option<BasicTypeEnum<'ctx>>)
        ensures
            r is Some <==> lowers(*ty),
            r matches Some(t) ==> lowers_to(*ty, t),
        decreases ty,
    {
        match ty {
            TypeNode::Bool => Some(bool_type(self.context)),
            TypeNode::I8 => Some(int_as_basic(i8_type(self.context))),
            TypeNode::I16 => Some(i16_type(self.context)),
            TypeNode::I32 => Some(int_as_basic(i32_type(self.context))),
            TypeNode::I64 => Some(int_as_basic(i64_type(self.context))),
            TypeNode::I128 => Some(i128_type(self.context)),
            TypeNode::F32 => Some(f32_type(self.context)),
            TypeNode::F64 => Some(f64_type(self.context)),
            TypeNode::U8Array => Some(ptr_as_basic(int_ptr_type(i8_type(self.context)))),
            TypeNode::Array(inner, size) => match self.type_to_llvm(inner) {
                Some(t) => Some(array_type(t, *size)),
                None => None,
            },
            TypeNode::HashMap(_, _) => None,
        }
    }

    /// Storage for a variable in the entry block of `function`; `None` when
    /// the function has no block or the builder refuses.
    pub fn create_entry_block_alloca(
        &self,
        function: FunctionValue<'ctx>,
        name: &str,
        ty: BasicTypeEnum<'ctx>,
    ) -> Option<PointerValue<'ctx>> {
        let entry = match first_block(function) {
            Some(b) => b,
            None => return None,
        };
        let entry_builder = create_builder(self.context);
        position_at_end(&entry_builder, entry);
        build_alloca(&entry_builder, ty, name)
    }

    /// The module as LLVM IR text.
    pub fn print_ir(&self) -> String {
        print_module(&self.module)
    }

    /// Checks the module that code generation built; LLVM's message when it is malformed.
    pub fn verify(&self) -> Result<(), String> {
        verify_module(&self.module)
    }

    /// Lowers a program statement by statement, then checks the module that
    /// was built; LLVM's message when the module is malformed.
    pub fn compile(&mut self, program: &[Statement]) -> (r: Result<(), String>)
        requires
            old(self).wf(),
        ensures
            final(self).wf(),
            final(self).context == old(self).context,
            module_functions(old(self).module).subset_of(module_functions(final(self).module)),
            final(self).bindings().dom().subset_of(
                old(self).bindings().dom().union(names_bound_in(program@)),
            ),
    {
        let mut i: usize = 0;
        proof {
            assert(program@.take(0) =~= Seq::<Statement>::empty());
            assert(names_bound_in(Seq::<Statement>::empty()) == Set::<Seq<char>>::empty());
        }
        while i < program.len()
            invariant
                i <= program@.len(),
                self.wf(),
                self.context == old(self).context,
                module_functions(old(self).module).subset_of(module_functions(self.module)),
                self.bindings().dom().subset_of(
                    old(self).bindings().dom().union(names_bound_in(program@.take(i as int))),
                ),
            decreases program.len() - i,
        {
            proof {
                lemma_names_bound_in_push(program@.take(i as int), program@[i as int]);
                assert(program@.take(i + 1) =~= program@.take(i as int).push(program@[i as int]));
            }
            program[i].codegen(self);
            i = i + 1;
        }
        assert(program@.take(program@.len() as int) =~= program@);
        self.verify()
    }

    /// Lowers the front end's nodes in order, and stops at the first that
    /// fails. On success every declared variable is bound, and nothing else
    /// is bound anew.
    pub fn compile_module(&mut self, nodes: &[ASTNode]) -> (r: Result<(), CodegenError>)
        requires
            old(self).wf(),
        ensures
            final(self).wf(),
            final(self).context == old(self).context,
            module_functions(final(self).module) == module_functions(old(self).module),
            r is Ok ==> forall|i: int|
                0 <= i < nodes@.len() ==> supported_declaration(#[trigger] nodes@[i]@),
            r == Err::<(), CodegenError>(CodegenError::UnsupportedType) ==> exists|i: int|
                0 <= i < nodes@.len() && !supported_declaration(#[trigger] nodes@[i]@),
            (forall|i: int| 0 <= i < nodes@.len() ==> !(#[trigger] nodes@[i]@ is VarDecl)) ==> r
                is Ok,
            (exists|i: int|
                0 <= i < nodes@.len() && !supported_declaration(#[trigger] nodes@[i]@) && (forall|
                    j: int,
                | 0 <= j < i ==> !(#[trigger] nodes@[j]@ is VarDecl))) ==> r == Err::<
                (),
                CodegenError,
            >(CodegenError::UnsupportedType),
            r is Err ==> exists|i: int| 0 <= i < nodes@.len() && #[trigger] nodes@[i]@ is VarDecl,
            r is Ok ==> final(self).bindings().dom() == old(self).bindings().dom().union(
                declared_names(nodes@),
            ),
            r is Ok ==> forall|k: Seq<char>|
                #![trigger final(self).bindings()[k]]
                old(self).bindings().dom().contains(k) && !declared_names(nodes@).contains(k)
                    ==> final(self).bindings()[k] == old(self).bindings()[k],
    {
        let ghost dom0 = self.bindings().dom();
        let ghost b0 = self.bindings();
        let mut i: usize = 0;
        proof {
            assert(declared_names(nodes@.take(0)) =~= Set::<Seq<char>>::empty());
            assert(dom0.union(Set::<Seq<char>>::empty()) =~= dom0);
        }
        while i < nodes.len()
            invariant
                i <= nodes@.len(),
                self.wf(),
                self.context == old(self).context,
                module_functions(self.module) == module_functions(old(self).module),
                dom0 == old(self).bindings().dom(),
                forall|j: int| 0 <= j < i ==> supported_declaration(#[trigger] nodes@[j]@),
                self.bindings().dom() == dom0.union(declared_names(nodes@.take(i as int))),
                b0 == old(self).bindings(),
                forall|k: Seq<char>|
                    #![trigger self.bindings()[k]]
                    dom0.contains(k) && !declared_names(nodes@.take(i as int)).contains(k)
                        ==> self.bindings()[k] == b0[k],
            decreases nodes.len() - i,
        {
            let ghost before = self.bindings().dom();
            let ghost bb = self.bindings();
            match self.compile_node(&nodes[i]) {
                Ok(()) => {},
                Err(e) => {
                    proof {
                        assert(nodes@[i as int]@ is VarDecl);
                        assert forall|k: int|
                            0 <= k < nodes@.len() && !supported_declaration(#[trigger] nodes@[k]@)
                                && (forall|j: int| 0 <= j < k ==> !(#[trigger] nodes@[j]@ is VarDecl))
                            implies e == CodegenError::UnsupportedType by {
                            if k < i {
                                assert(supported_declaration(nodes@[k]@));
                            } else if k > i {
                                assert(!(nodes@[i as int]@ is VarDecl));
                            }
                        }
                    }
                    return Err(e);
                },
            }
            proof {
                let t = nodes@.take(i as int);
                let t1 = nodes@.take(i + 1);
                assert(t1 =~= t.push(nodes@[i as int]));
                match nodes@[i as int]@ {
                    NodeV::VarDecl { name, .. } => {
                        assert forall|n: Seq<char>| declared_names(t1).contains(n) implies
                            declared_names(t).insert(name).contains(n) by {
                            let j = choose|j: int|
                                0 <= j < t1.len() && (#[trigger] t1[j]@ matches NodeV::VarDecl {
                                    name: m,
                                    ..
                                } && m == n);
                            if j < t.len() {
                                assert(t[j] == t1[j]);
                            }
                        }
                        assert forall|n: Seq<char>| declared_names(t).insert(name).contains(n) implies
                            declared_names(t1).contains(n) by {
                            if n == name {
                                assert(t1[i as int] == nodes@[i as int]);
                            } else {
                                let j = choose|j: int|
                                    0 <= j < t.len() && (#[trigger] t[j]@ matches NodeV::VarDecl {
                                        name: m,
                                        ..
                                    } && m == n);
                                assert(t1[j] == t[j]);
                            }
                        }
                        assert(declared_names(t1) =~= declared_names(t).insert(name));
                        assert(self.bindings().dom() =~= dom0.union(declared_names(t1)));
                        let p = choose|p: PointerValue<'ctx>| self.bindings() == bb.insert(name, p);
                        assert forall|k: Seq<char>|
                            dom0.contains(k) && !declared_names(t1).contains(k) implies
                            #[trigger] self.bindings()[k] == b0[k] by {
                            assert(k != name);
                            assert(bb[k] == b0[k]);
                        }
                    },
                    _ => {
                        assert forall|n: Seq<char>| declared_names(t1).contains(n) implies
                            declared_names(t).contains(n) by {
                            let j = choose|j: int|
                                0 <= j < t1.len() && (#[trigger] t1[j]@ matches NodeV::VarDecl {
                                    name: m,
                                    ..
                                } && m == n);
                            if j < t.len() {
                                assert(t[j] == t1[j]);
                            }
                        }
                        assert forall|n: Seq<char>| declared_names(t).contains(n) implies
                            declared_names(t1).contains(n) by {
                            let j = choose|j: int|
                                0 <= j < t.len() && (#[trigger] t[j]@ matches NodeV::VarDecl {
                                    name: m,
                                    ..
                                } && m == n);
                            assert(t1[j] == t[j]);
                        }
                        assert(declared_names(t1) =~= declared_names(t));
                    },
                }
            }
            i = i + 1;
        }
        assert(nodes@.take(nodes@.len() as int) =~= nodes@);
        Ok(())
    }

    /// Lowers one node: a declaration of an `i32` or `i64` gets storage, bound
    /// to its name, and an integer initial value is stored there; other nodes
    /// give nothing.
    fn compile_node(&mut self, node: &ASTNode) -> (r: Result<(), CodegenError>)
        requires
            old(self).wf(),
        ensures
            final(self).wf(),
            final(self).context == old(self).context,
            module_functions(final(self).module) == module_functions(old(self).module),
            r is Ok ==> supported_declaration(node@),
            !supported_declaration(node@) <==> r == Err::<(), CodegenError>(
                CodegenError::UnsupportedType,
            ),
            !(node@ is VarDecl) ==> r is Ok && *final(self) == *old(self),
            r is Ok ==> (node@ matches NodeV::VarDecl { name, .. } ==> final(self).bindings().dom()
                == old(self).bindings().dom().insert(name)),
            r is Ok ==> (node@ matches NodeV::VarDecl { name, .. } ==> exists|p: PointerValue<'ctx>|
                final(self).bindings() == old(self).bindings().insert(name, p)),
            r == Err::<(), CodegenError>(CodegenError::UnsupportedType) ==> *final(self) == *old(
                self,
            ),
    {
        match node {
            ASTNode::VarDecl { name, is_mut: _, declared_type, initial_value } => {
                let ty = if str_eq(declared_type.as_str(), "i32") {
                    int_as_basic(i32_type(self.context))
                } else if str_eq(declared_type.as_str(), "i64") {
                    int_as_basic(i64_type(self.context))
                } else {
                    return Err(CodegenError::UnsupportedType);
                };
                let alloca = match build_alloca(&self.builder, ty, name.as_str()) {
                    Some(a) => a,
                    None => return Err(CodegenError::Builder),
                };
                let ghost b0 = self.bindings();
                self.bind(name.clone(), alloca);
                assert(self.bindings() == b0.insert(name@, alloca));
                assert(self.bindings() == old(self).bindings().insert(name@, alloca));
                assert(node@ matches NodeV::VarDecl { name: n, .. } && n == name@);
                match initial_value {
                    Some(init) => match &**init {
                        ASTNode::IntegerLiteral(val) => {
                            let const_val = const_int(i64_type(self.context), *val as u64, false);
                            if !build_store(&self.builder, alloca, const_val) {
                                return Err(CodegenError::Builder);
                            }
                        },
                        _ => {},
                    },
                    None => {},
                }
                Ok(())
            },
            _ => Ok(()),
        }
    }
}

} // verus!
