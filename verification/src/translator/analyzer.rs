use crate::io::signed_value;
use crate::translator::ast::{node_view, optional_shape, tree_view, trees_view, NodeView, RawAbstractSyntaxNode, RawAbstractSyntaxTree, TreeView, variable_view};
use crate::translator::common::{Type, Variable};
use crate::translator::expression::{
    arithmetic, is_arithmetic_binary_op, is_compering_binary_op, is_logical_binary_op,
    is_relational_binary_op, logical, relational, shape, shapes, type_view, Expression,
    ExpressionBinaryOperator, ExpressionView, TypeView,
};
use vstd::prelude::*;

verus! {

/// Why a program is refused by the semantic analysis.
#[derive(Clone, Copy, Debug, PartialEq, Eq, Structural)]
pub enum SemanticError {
    /// A literal is neither a truth value, a number nor a character.
    UnknownLiteral,
    /// A variable is used or assigned without a declaration in scope.
    Undefined,
    /// The two operands of a binary operator have different types.
    BinaryTypeMismatch,
    /// An arithmetic operator applied to something other than `int` or `int[4]`.
    ArithmeticType,
    /// `&&` or `||` applied to something other than `bool`.
    LogicalType,
    /// `<`, `>`, `<=` or `>=` applied to something other than `int`.
    RelationalType,
    /// A called function is not defined.
    FunctionNotFound,
    /// A class named by an object's type is not defined.
    ClassNotFound,
    /// A called method is not defined in the object's class.
    MethodNotFound,
    /// A method is called on a value that is no object.
    MethodCallOnNonObject,
    /// A field is not defined in the object's class.
    FieldNotFound,
    /// A field is read from a value that is no object.
    FieldAccessOnNonObject,
    /// A field is assigned on a value that is no object.
    NotAnObject,
    /// A field is assigned a value of another type.
    FieldAssignMismatch,
    /// An array index is not an `int`.
    IndexNotInt,
    /// A constant index lies outside the declared size of an array variable.
    IndexOutOfBounds,
    /// Something other than an array is indexed.
    IndexingNonArray,
    /// A variable is assigned a value of another type.
    AssignTypeMismatch,
    /// An array element is assigned a value of another type.
    ArrayAssignTypeMismatch,
    /// `++` or `--` applied to something other than a variable, field or element.
    IncrementTarget,
    /// `++` or `--` applied to something other than an `int`.
    IncrementType,
    /// Unary minus applied to something other than an `int`.
    NegateType,
    /// `!` applied to something other than a `bool`.
    NotType,
    /// `new` names a class that is not defined.
    UnknownClass,
    /// `new T[n]` names an element type that is not defined.
    UnknownElementType,
    /// `this` outside a class.
    ThisOutsideClass,
    /// A call has another number of arguments than the callee has parameters.
    ArgumentCountMismatch,
    /// An argument's type differs from its parameter's.
    ArgumentTypeMismatch,
    /// The analysis has no typing rule for this kind of expression.
    UnsupportedExpression,
    /// The condition of an `if` or `while` is not a `bool`.
    ConditionNotBool,
    /// Some path through a function's body ends without `return`.
    MissingReturn,
    /// A declaration names a class that is not defined.
    UnknownType,
    /// A declaration's initial value has another type than the declaration.
    DeclarationTypeMismatch,
    /// `return` outside a function.
    ReturnOutsideFunction,
    /// A returned value's type differs from the function's result type.
    ReturnTypeMismatch,
    /// `break` or `continue` outside a loop.
    JumpOutsideLoop,
    /// A class is defined twice.
    ClassExists,
    /// A function, or a method of one class, is defined twice.
    FunctionExists,
    /// No function or method is named `Main`.
    MissingMain,
    /// The analysis has no rule for this kind of statement: `for` and `else if` are rewritten
    /// before it.
    UnsupportedStatement,
}

/// The signature of a function: its result type and the types of its parameters.
pub struct FunctionInfo {
    pub result_type: Type,
    pub parameters: Vec<Type>,
}

/// The members of a class: its fields and its methods, each in the order of declaration.
pub struct ClassInfo {
    pub fields: Vec<(String, Type)>,
    pub methods: Vec<(String, FunctionInfo)>,
}

/// A statement that encloses the statement being analysed.
pub enum Frame {
    /// A class with this name.
    Class(String),
    /// A function with this result type.
    Callable(Type),
    /// A `while` or `for` loop.
    Loop,
    /// Any other statement.
    Other,
}

/// What the analysis knows while it walks a program: the variables of each open scope, the
/// enclosing statements, and the functions and classes that the program defines. Each list is
/// read from its end, so that a later entry for a name hides an earlier one.
pub struct SemanticTable {
    pub scopes: Vec<Vec<(String, Type)>>,
    pub frames: Vec<Frame>,
    pub functions: Vec<(String, FunctionInfo)>,
    pub classes: Vec<(String, ClassInfo)>,
}

/// The view of a signature.
pub open spec fn signature_view(info: FunctionInfo) -> (TypeView, Seq<TypeView>) {
    (type_view(info.result_type), info.parameters@.map_values(|t: Type| type_view(t)))
}

/// The view of a list of named types.
pub open spec fn typed_names(entries: Seq<(String, Type)>) -> Seq<(Seq<char>, TypeView)> {
    entries.map_values(|e: (String, Type)| (e.0@, type_view(e.1)))
}

/// The view of a list of named signatures.
pub open spec fn signatures(entries: Seq<(String, FunctionInfo)>) -> Seq<
    (Seq<char>, (TypeView, Seq<TypeView>)),
> {
    entries.map_values(|e: (String, FunctionInfo)| (e.0@, signature_view(e.1)))
}

/// The members of a class, by name.
#[verifier::ext_equal]
pub struct ClassView {
    pub fields: Seq<(Seq<char>, TypeView)>,
    pub methods: Seq<(Seq<char>, (TypeView, Seq<TypeView>))>,
}

/// The view of a class.
pub open spec fn class_view(info: ClassInfo) -> ClassView {
    ClassView { fields: typed_names(info.fields@), methods: signatures(info.methods@) }
}

/// The view of a list of named classes.
pub open spec fn class_views(entries: Seq<(String, ClassInfo)>) -> Seq<(Seq<char>, ClassView)> {
    entries.map_values(|e: (String, ClassInfo)| (e.0@, class_view(e.1)))
}

/// The value of the last entry for `key`, if any.
pub open spec fn lookup<V>(entries: Seq<(Seq<char>, V)>, key: Seq<char>) -> Option<V>
    decreases entries.len(),
{
    if entries.len() == 0 {
        None
    } else if entries.last().0 == key {
        Some(entries.last().1)
    } else {
        lookup(entries.drop_last(), key)
    }
}

/// The type of a variable in the innermost scope that declares it.
pub open spec fn find_variable(scopes: Seq<Seq<(Seq<char>, TypeView)>>, name: Seq<char>) -> Option<
    TypeView,
>
    decreases scopes.len(),
{
    if scopes.len() == 0 {
        None
    } else {
        match lookup(scopes.last(), name) {
            Some(t) => Some(t),
            None => find_variable(scopes.drop_last(), name),
        }
    }
}

/// An enclosing statement, its names as sequences of characters.
pub enum FrameView {
    Class(Seq<char>),
    Callable(TypeView),
    Loop,
    Other,
}

/// The view of an enclosing statement.
pub open spec fn frame_view(frame: Frame) -> FrameView {
    match frame {
        Frame::Class(name) => FrameView::Class(name@),
        Frame::Callable(typ) => FrameView::Callable(type_view(typ)),
        Frame::Loop => FrameView::Loop,
        Frame::Other => FrameView::Other,
    }
}

/// The name of the innermost enclosing class, if any.
pub open spec fn class_context(frames: Seq<FrameView>) -> Option<Seq<char>>
    decreases frames.len(),
{
    if frames.len() == 0 {
        None
    } else {
        match frames.last() {
            FrameView::Class(name) => Some(name),
            _ => class_context(frames.drop_last()),
        }
    }
}

/// What the analysis knows, with names as sequences of characters.
#[verifier::ext_equal]
pub struct TableView {
    pub scopes: Seq<Seq<(Seq<char>, TypeView)>>,
    pub frames: Seq<FrameView>,
    pub functions: Seq<(Seq<char>, (TypeView, Seq<TypeView>))>,
    pub classes: Seq<(Seq<char>, ClassView)>,
}

impl View for SemanticTable {
    type V = TableView;

    open spec fn view(&self) -> TableView {
        TableView {
            scopes: self.scopes@.map_values(|scope: Vec<(String, Type)>| typed_names(scope@)),
            frames: self.frames@.map_values(|frame: Frame| frame_view(frame)),
            functions: signatures(self.functions@),
            classes: class_views(self.classes@),
        }
    }
}

/// What the typing of an expression reads: the variables in scope, the functions, the
/// classes, and the enclosing class.
pub struct Environment {
    pub scopes: Seq<Seq<(Seq<char>, TypeView)>>,
    pub functions: Seq<(Seq<char>, (TypeView, Seq<TypeView>))>,
    pub classes: Seq<(Seq<char>, ClassView)>,
    pub context: Option<Seq<char>>,
}

/// The environment in which a table types expressions.
pub open spec fn environment_of(table: TableView) -> Environment {
    Environment {
        scopes: table.scopes,
        functions: table.functions,
        classes: table.classes,
        context: class_context(table.frames),
    }
}

impl SemanticTable {
    /// The environment in which the table types expressions.
    pub open spec fn environment(self) -> Environment {
        environment_of(self@)
    }
}

/// The type of a literal: `true` and `false` are truth values, a number that fits in an `i64`
/// is an `int`, and text in single quotes is a `char`.
pub open spec fn literal_type(value: Seq<char>) -> Option<TypeView> {
    if value == seq!['t', 'r', 'u', 'e'] || value == seq!['f', 'a', 'l', 's', 'e'] {
        Some(TypeView::Bool)
    } else if signed_value(value) matches Some(k) && i64::MIN <= k <= i64::MAX {
        Some(TypeView::Int)
    } else if value.len() > 0 && value[0] == '\'' && value.last() == '\'' {
        Some(TypeView::Char)
    } else {
        None
    }
}

/// The types of a typed expression and of its parts, in the order the analysis visits them.
pub struct TypeTree {
    pub typ: TypeView,
    pub parts: Seq<TypeTree>,
}

/// A type tree without parts.
pub open spec fn leaf(typ: TypeView) -> TypeTree {
    TypeTree { typ, parts: Seq::empty() }
}

/// The type annotations of an expression, as a tree.
pub open spec fn types_of(e: Expression<Type>) -> TypeTree
    decreases e,
{
    let typ = type_view(e.annotation());
    match e {
        Expression::BinaryOperator { left, right, .. } => TypeTree {
            typ,
            parts: seq![types_of(*left), types_of(*right)],
        },
        Expression::FunctionCall { arguments, .. } => TypeTree {
            typ,
            parts: types_of_all(arguments@),
        },
        Expression::MethodCall { object, arguments, .. } => TypeTree {
            typ,
            parts: seq![types_of(*object)] + types_of_all(arguments@),
        },
        Expression::Assign { value, .. } => TypeTree { typ, parts: seq![types_of(*value)] },
        Expression::AssignField { object, value, .. } => TypeTree {
            typ,
            parts: seq![types_of(*object), types_of(*value)],
        },
        Expression::AssignIndex { expression, index, value, .. } => TypeTree {
            typ,
            parts: seq![types_of(*expression), types_of(*index), types_of(*value)],
        },
        Expression::Increment { expression, .. } => TypeTree {
            typ,
            parts: seq![types_of(*expression)],
        },
        Expression::Decrement { expression, .. } => TypeTree {
            typ,
            parts: seq![types_of(*expression)],
        },
        Expression::Negate { expression, .. } => TypeTree {
            typ,
            parts: seq![types_of(*expression)],
        },
        Expression::Not { expression, .. } => TypeTree { typ, parts: seq![types_of(*expression)] },
        Expression::BitwiseNot { expression, .. } => TypeTree {
            typ,
            parts: seq![types_of(*expression)],
        },
        Expression::Field { object, .. } => TypeTree { typ, parts: seq![types_of(*object)] },
        Expression::Index { expression, index, .. } => TypeTree {
            typ,
            parts: seq![types_of(*expression), types_of(*index)],
        },
        Expression::AssignSlice { expression, start, value, .. } => TypeTree {
            typ,
            parts: seq![types_of(*expression), types_of(*start), types_of(*value)],
        },
        Expression::Slice { expression, start, .. } => TypeTree {
            typ,
            parts: seq![types_of(*expression), types_of(*start)],
        },
        _ => leaf(typ),
    }
}

/// The type trees of a sequence of expressions.
pub open spec fn types_of_all(expressions: Seq<Expression<Type>>) -> Seq<TypeTree>
    decreases expressions,
{
    if expressions.len() == 0 {
        Seq::empty()
    } else {
        types_of_all(expressions.drop_last()).push(types_of(expressions.last()))
    }
}

/// Whether a constant index lies outside the declared size of an indexed array variable.
pub open spec fn out_of_bounds(indexed: ExpressionView, typ: TypeView, index: ExpressionView) -> bool {
    match (indexed, index, typ) {
        (ExpressionView::Variable(_), ExpressionView::Literal(value), TypeView::Array(_, size)) => {
            match signed_value(value) {
                Some(k) => i64::MIN <= k <= i64::MAX && (k < 0 || k >= (size as i64)),
                None => false,
            }
        },
        _ => false,
    }
}

/// Whether the expression can be incremented: a variable, a field or an element.
pub open spec fn assignable(e: ExpressionView) -> bool {
    e matches ExpressionView::Variable(_) || e matches ExpressionView::Field(_, _)
        || e matches ExpressionView::Index(_, _)
}

/// Whether every class that a type names is defined.
pub open spec fn valid_type(classes: Seq<(Seq<char>, ClassView)>, typ: TypeView) -> bool
    decreases typ,
{
    match typ {
        TypeView::Class(name) => lookup(classes, name) is Some,
        TypeView::Array(element, _) => valid_type(classes, *element),
        _ => true,
    }
}

/// The types of an expression in an environment, or the first error the analysis meets.
pub open spec fn typing(env: Environment, e: ExpressionView) -> Result<TypeTree, SemanticError>
    decreases e, 2nat,
{
    match e {
        ExpressionView::Literal(value) => match literal_type(value) {
            Some(t) => Ok(leaf(t)),
            None => Err(SemanticError::UnknownLiteral),
        },
        ExpressionView::Variable(name) => match find_variable(env.scopes, name) {
            Some(t) => Ok(leaf(t)),
            None => Err(SemanticError::Undefined),
        },
        ExpressionView::Binary(left, operator, right) => match typing(env, *left) {
            Err(x) => Err(x),
            Ok(l) => match typing(env, *right) {
                Err(x) => Err(x),
                Ok(r) => binary_typing(operator, l, r),
            },
        },
        ExpressionView::FunctionCall(name, arguments) => match lookup(env.functions, name) {
            None => Err(SemanticError::FunctionNotFound),
            Some(signature) => match arguments_typing(env, signature.1, arguments) {
                Err(x) => Err(x),
                Ok(parts) => Ok(TypeTree { typ: signature.0, parts }),
            },
        },
        ExpressionView::MethodCall(object, name, arguments) => match typing(env, *object) {
            Err(x) => Err(x),
            Ok(o) => match o.typ {
                TypeView::Class(class_name) => match lookup(env.classes, class_name) {
                    None => Err(SemanticError::ClassNotFound),
                    Some(class) => match lookup(class.methods, name) {
                        None => Err(SemanticError::MethodNotFound),
                        Some(signature) => match arguments_typing(env, signature.1, arguments) {
                            Err(x) => Err(x),
                            Ok(parts) => Ok(TypeTree { typ: signature.0, parts: seq![o] + parts }),
                        },
                    },
                },
                _ => Err(SemanticError::MethodCallOnNonObject),
            },
        },
        ExpressionView::Field(object, name) => match typing(env, *object) {
            Err(x) => Err(x),
            Ok(o) => match o.typ {
                TypeView::Class(class_name) => match lookup(env.classes, class_name) {
                    None => Err(SemanticError::ClassNotFound),
                    Some(class) => match lookup(class.fields, name) {
                        None => Err(SemanticError::FieldNotFound),
                        Some(t) => Ok(TypeTree { typ: t, parts: seq![o] }),
                    },
                },
                _ => Err(SemanticError::FieldAccessOnNonObject),
            },
        },
        ExpressionView::Index(indexed, index) => match typing(env, *indexed) {
            Err(x) => Err(x),
            Ok(a) => match typing(env, *index) {
                Err(x) => Err(x),
                Ok(i) => if i.typ != TypeView::Int {
                    Err(SemanticError::IndexNotInt)
                } else if out_of_bounds(*indexed, a.typ, *index) {
                    Err(SemanticError::IndexOutOfBounds)
                } else {
                    match a.typ {
                        TypeView::Array(element, _) => Ok(TypeTree { typ: *element, parts: seq![a, i] }),
                        _ => Err(SemanticError::IndexingNonArray),
                    }
                },
            },
        },
        ExpressionView::Assign(name, value) => match find_variable(env.scopes, name) {
            None => Err(SemanticError::Undefined),
            Some(t) => match typing(env, *value) {
                Err(x) => Err(x),
                Ok(v) => if t != v.typ {
                    Err(SemanticError::AssignTypeMismatch)
                } else {
                    Ok(TypeTree { typ: t, parts: seq![v] })
                },
            },
        },
        ExpressionView::AssignField(object, name, value) => match typing(env, *object) {
            Err(x) => Err(x),
            Ok(o) => match typing(env, *value) {
                Err(x) => Err(x),
                Ok(v) => match o.typ {
                    TypeView::Class(class_name) => match lookup(env.classes, class_name) {
                        None => Err(SemanticError::ClassNotFound),
                        Some(class) => match lookup(class.fields, name) {
                            None => Err(SemanticError::FieldNotFound),
                            Some(t) => if t != v.typ {
                                Err(SemanticError::FieldAssignMismatch)
                            } else {
                                Ok(TypeTree { typ: t, parts: seq![o, v] })
                            },
                        },
                    },
                    _ => Err(SemanticError::NotAnObject),
                },
            },
        },
        ExpressionView::AssignIndex(indexed, index, value) => match typing(env, *indexed) {
            Err(x) => Err(x),
            Ok(a) => match typing(env, *index) {
                Err(x) => Err(x),
                Ok(i) => match typing(env, *value) {
                    Err(x) => Err(x),
                    Ok(v) => if i.typ != TypeView::Int {
                        Err(SemanticError::IndexNotInt)
                    } else if out_of_bounds(*indexed, a.typ, *index) {
                        Err(SemanticError::IndexOutOfBounds)
                    } else {
                        match a.typ {
                            TypeView::Array(element, _) => if *element != v.typ {
                                Err(SemanticError::ArrayAssignTypeMismatch)
                            } else {
                                Ok(TypeTree { typ: *element, parts: seq![a, i, v] })
                            },
                            _ => Err(SemanticError::IndexingNonArray),
                        }
                    },
                },
            },
        },
        ExpressionView::Increment(target, _) => step_typing(env, *target),
        ExpressionView::Decrement(target, _) => step_typing(env, *target),
        ExpressionView::Negate(operand) => match typing(env, *operand) {
            Err(x) => Err(x),
            Ok(o) => if o.typ != TypeView::Int {
                Err(SemanticError::NegateType)
            } else {
                Ok(TypeTree { typ: TypeView::Int, parts: seq![o] })
            },
        },
        ExpressionView::Not(operand) => match typing(env, *operand) {
            Err(x) => Err(x),
            Ok(o) => if o.typ != TypeView::Bool {
                Err(SemanticError::NotType)
            } else {
                Ok(TypeTree { typ: TypeView::Bool, parts: seq![o] })
            },
        },
        ExpressionView::New(class_name) => if lookup(env.classes, class_name) is Some {
            Ok(leaf(TypeView::Class(class_name)))
        } else {
            Err(SemanticError::UnknownClass)
        },
        ExpressionView::NewArray(element, size) => if valid_type(env.classes, element) {
            Ok(leaf(TypeView::Array(Box::new(element), size)))
        } else {
            Err(SemanticError::UnknownElementType)
        },
        ExpressionView::This => match env.context {
            Some(name) => Ok(leaf(TypeView::Class(name))),
            None => Err(SemanticError::ThisOutsideClass),
        },
        _ => Err(SemanticError::UnsupportedExpression),
    }
}

/// The type of `++` or `--` applied to `target`.
pub open spec fn step_typing(env: Environment, target: ExpressionView) -> Result<TypeTree, SemanticError>
    decreases target, 3nat,
{
    match typing(env, target) {
        Err(x) => Err(x),
        Ok(t) => if !assignable(target) {
            Err(SemanticError::IncrementTarget)
        } else if t.typ != TypeView::Int {
            Err(SemanticError::IncrementType)
        } else {
            Ok(TypeTree { typ: TypeView::Int, parts: seq![t] })
        },
    }
}

/// The type of a binary operator applied to operands of types `l` and `r`.
pub open spec fn binary_typing(operator: ExpressionBinaryOperator, l: TypeTree, r: TypeTree) -> Result<
    TypeTree,
    SemanticError,
> {
    if l.typ != r.typ {
        Err(SemanticError::BinaryTypeMismatch)
    } else if arithmetic(operator) && l.typ != TypeView::Int && l.typ != TypeView::Array(
        Box::new(TypeView::Int),
        4,
    ) {
        Err(SemanticError::ArithmeticType)
    } else if logical(operator) && l.typ != TypeView::Bool {
        Err(SemanticError::LogicalType)
    } else if relational(operator) && l.typ != TypeView::Int {
        Err(SemanticError::RelationalType)
    } else if relational(operator) || operator == ExpressionBinaryOperator::Equal || operator
        == ExpressionBinaryOperator::NotEqual {
        Ok(TypeTree { typ: TypeView::Bool, parts: seq![l, r] })
    } else {
        Ok(TypeTree { typ: l.typ, parts: seq![l, r] })
    }
}

/// The types of the arguments of a call to a callee with these parameter types.
pub open spec fn arguments_typing(
    env: Environment,
    parameters: Seq<TypeView>,
    arguments: Seq<ExpressionView>,
) -> Result<Seq<TypeTree>, SemanticError>
    decreases arguments, 1nat,
{
    if parameters.len() != arguments.len() {
        Err(SemanticError::ArgumentCountMismatch)
    } else {
        arguments_in_order(env, parameters, arguments)
    }
}

/// The types of arguments already known to be as many as the parameters, in order.
pub open spec fn arguments_in_order(
    env: Environment,
    parameters: Seq<TypeView>,
    arguments: Seq<ExpressionView>,
) -> Result<Seq<TypeTree>, SemanticError>
    decreases arguments, 0nat,
{
    if arguments.len() == 0 || parameters.len() != arguments.len() {
        Ok(Seq::empty())
    } else {
        match arguments_in_order(env, parameters.drop_last(), arguments.drop_last()) {
            Err(x) => Err(x),
            Ok(before) => match typing(env, arguments.last()) {
                Err(x) => Err(x),
                Ok(a) => if a.typ != parameters.last() {
                    Err(SemanticError::ArgumentTypeMismatch)
                } else {
                    Ok(before.push(a))
                },
            },
        }
    }
}

/// The last entry of a list for a key decides the lookup; without one, there is none.
pub proof fn lemma_lookup_last<V>(entries: Seq<(Seq<char>, V)>, key: Seq<char>, found: Option<int>)
    requires
        match found {
            Some(i) => 0 <= i < entries.len() && entries[i].0 == key && forall|j: int|
                i < j < entries.len() ==> #[trigger] entries[j].0 != key,
            None => forall|j: int| 0 <= j < entries.len() ==> #[trigger] entries[j].0 != key,
        },
    ensures
        lookup(entries, key) == match found {
            Some(i) => Some(entries[i].1),
            None => None::<V>,
        },
        last_key_index(entries, key) == match found {
            Some(i) => i,
            None => -1,
        },
    decreases entries.len(),
{
    if entries.len() > 0 {
        match found {
            Some(i) => {
                if i < entries.len() - 1 {
                    assert(entries.last() == entries[entries.len() - 1]);
                    lemma_lookup_last(entries.drop_last(), key, found);
                }
            },
            None => {
                assert(entries.last() == entries[entries.len() - 1]);
                lemma_lookup_last(entries.drop_last(), key, found);
            },
        }
    }
}

/// The index of the last entry for `name`.
fn last_entry<V>(entries: &Vec<(String, V)>, name: &String) -> (found: Option<usize>)
    ensures
        match found {
            Some(i) => i < entries@.len() && entries@[i as int].0@ == name@ && forall|j: int|
                i < j < entries@.len() ==> #[trigger] entries@[j].0@ != name@,
            None => forall|j: int| 0 <= j < entries@.len() ==> #[trigger] entries@[j].0@ != name@,
        },
{
    let mut k = entries.len();
    while k > 0
        invariant
            k <= entries@.len(),
            forall|j: int| k <= j < entries@.len() ==> #[trigger] entries@[j].0@ != name@,
        decreases k,
    {
        if entries[k - 1].0 == *name {
            return Some(k - 1);
        }
        k = k - 1;
    }
    None
}

/// Whether two types are the same.
fn same_type(a: &Type, b: &Type) -> (same: bool)
    ensures
        same == (type_view(*a) == type_view(*b)),
    decreases a,
{
    match (a, b) {
        (Type::Void, Type::Void) => true,
        (Type::Int, Type::Int) => true,
        (Type::Bool, Type::Bool) => true,
        (Type::Char, Type::Char) => true,
        (Type::Array(x, n), Type::Array(y, m)) => *n == *m && same_type(x, y),
        (Type::Class(x), Type::Class(y)) => *x == *y,
        _ => false,
    }
}

/// Whether a type is `int[4]`, the vector type that arithmetic accepts besides `int`.
fn is_int_vector(t: &Type) -> (vector: bool)
    ensures
        vector == (type_view(*t) == TypeView::Array(Box::new(TypeView::Int), 4)),
{
    match t {
        Type::Array(element, size) => {
            let int_element = match &**element {
                Type::Int => true,
                _ => false,
            };
            proof {
                if !int_element {
                    assert(type_view(**element) != TypeView::Int);
                    assert(*Box::new(type_view(**element)) != *Box::new(TypeView::Int));
                }
            }
            *size == 4 && int_element
        },
        _ => false,
    }
}

/// The type of a literal.
pub fn get_literal_type(value: &String) -> (typ: Result<Type, SemanticError>)
    ensures
        match (typ, literal_type(value@)) {
            (Ok(t), Some(u)) => type_view(t) == u,
            (Err(e), None) => e == SemanticError::UnknownLiteral,
            _ => false,
        },
{
    let chars = crate::io::chars_of(value.as_str());
    let n = chars.len();
    proof {
        assert(chars@.subrange(0, n as int) =~= chars@);
        assert(['t', 'r', 'u', 'e']@ =~= seq!['t', 'r', 'u', 'e']);
        assert(['f', 'a', 'l', 's', 'e']@ =~= seq!['f', 'a', 'l', 's', 'e']);
    }
    if crate::io::same_text(chars.as_slice(), 0, n, &['t', 'r', 'u', 'e'])
        || crate::io::same_text(chars.as_slice(), 0, n, &['f', 'a', 'l', 's', 'e']) {
        return Ok(Type::Bool);
    }
    if crate::io::parse_signed(chars.as_slice(), 0, n).is_some() {
        return Ok(Type::Int);
    }
    if n > 0 && chars[0] == '\'' && chars[n - 1] == '\'' {
        return Ok(Type::Char);
    }
    Err(SemanticError::UnknownLiteral)
}

impl SemanticTable {
    /// The type of a variable in the innermost scope that declares it.
    fn find_var(&self, name: &String) -> (typ: Option<Type>)
        ensures
            match typ {
                Some(t) => find_variable(self.environment().scopes, name@) == Some(type_view(t)),
                None => find_variable(self.environment().scopes, name@) is None,
            },
    {
        let ghost scopes = self.environment().scopes;
        let mut k = self.scopes.len();
        proof {
            assert(scopes.take(k as int) =~= scopes);
        }
        while k > 0
            invariant
                k <= self.scopes@.len(),
                scopes == self.environment().scopes,
                scopes.len() == self.scopes@.len(),
                find_variable(scopes, name@) == find_variable(scopes.take(k as int), name@),
            decreases k,
        {
            let scope = &self.scopes[k - 1];
            let ghost names = typed_names(scope@);
            proof {
                assert(scopes.take(k as int).last() == names);
                assert(scopes.take(k as int).drop_last() =~= scopes.take(k - 1));
            }
            match last_entry(scope, name) {
                Some(i) => {
                    proof {
                        assert(names[i as int].0 == scope@[i as int].0@);
                        assert forall|j: int| i < j < names.len() implies #[trigger] names[j].0
                            != name@ by {
                            assert(names[j].0 == scope@[j].0@);
                        }
                        lemma_lookup_last(names, name@, Some(i as int));
                    }
                    return Some(scope[i].1.clone());
                },
                None => {
                    proof {
                        assert forall|j: int| 0 <= j < names.len() implies #[trigger] names[j].0
                            != name@ by {
                            assert(names[j].0 == scope@[j].0@);
                        }
                        lemma_lookup_last(names, name@, None);
                    }
                },
            }
            k = k - 1;
        }
        None
    }

    /// The name of the innermost enclosing class.
    fn current_class_context(&self) -> (name: Option<String>)
        ensures
            match name {
                Some(n) => self.environment().context == Some(n@),
                None => self.environment().context is None,
            },
    {
        let ghost frames = self@.frames;
        let mut k = self.frames.len();
        proof {
            assert(frames.take(k as int) =~= frames);
        }
        while k > 0
            invariant
                k <= self.frames@.len(),
                frames == self@.frames,
                frames.len() == self.frames@.len(),
                class_context(frames) == class_context(frames.take(k as int)),
            decreases k,
        {
            proof {
                assert(frames.take(k as int).drop_last() =~= frames.take(k - 1));
                assert(frames.take(k as int).last() == frame_view(self.frames@[k - 1]));
            }
            match &self.frames[k - 1] {
                Frame::Class(name) => {
                    return Some(name.clone());
                },
                _ => {},
            }
            k = k - 1;
        }
        None
    }
}

/// A lookup in a list of views follows the last entry for the key in the listed values.
pub proof fn lemma_lookup_mapped<X, V>(
    entries: Seq<(String, X)>,
    mapped: Seq<(Seq<char>, V)>,
    key: Seq<char>,
    found: Option<usize>,
)
    requires
        mapped.len() == entries.len(),
        forall|j: int| 0 <= j < entries.len() ==> #[trigger] mapped[j].0 == entries[j].0@,
        match found {
            Some(i) => i < entries.len() && entries[i as int].0@ == key && forall|j: int|
                i < j < entries.len() ==> #[trigger] entries[j].0@ != key,
            None => forall|j: int| 0 <= j < entries.len() ==> #[trigger] entries[j].0@ != key,
        },
    ensures
        lookup(mapped, key) == match found {
            Some(i) => Some(mapped[i as int].1),
            None => None::<V>,
        },
        last_key_index(mapped, key) == match found {
            Some(i) => i as int,
            None => -1,
        },
{
    match found {
        Some(i) => {
            assert(mapped[i as int].0 == entries[i as int].0@);
            assert forall|j: int| i < j < mapped.len() implies #[trigger] mapped[j].0 != key by {
                assert(mapped[j].0 == entries[j].0@);
            }
            lemma_lookup_last(mapped, key, Some(i as int));
        },
        None => {
            assert forall|j: int| 0 <= j < mapped.len() implies #[trigger] mapped[j].0 != key by {
                assert(mapped[j].0 == entries[j].0@);
            }
            lemma_lookup_last(mapped, key, None);
        },
    }
}

/// The entry of a named class.
fn find_class(classes: &Vec<(String, ClassInfo)>, name: &String) -> (found: Option<usize>)
    ensures
        match found {
            Some(i) => i < classes@.len() && lookup(class_views(classes@), name@) == Some(
                class_view(classes@[i as int].1),
            ) && last_key_index(class_views(classes@), name@) == i,
            None => lookup(class_views(classes@), name@) is None && last_key_index(
                class_views(classes@),
                name@,
            ) == -1,
        },
{
    let found = last_entry(classes, name);
    proof {
        lemma_lookup_mapped(classes@, class_views(classes@), name@, found);
    }
    found
}

/// The entry of a named function.
fn find_function(functions: &Vec<(String, FunctionInfo)>, name: &String) -> (found: Option<usize>)
    ensures
        match found {
            Some(i) => i < functions@.len() && lookup(signatures(functions@), name@) == Some(
                signature_view(functions@[i as int].1),
            ),
            None => lookup(signatures(functions@), name@) is None,
        },
{
    let found = last_entry(functions, name);
    proof {
        lemma_lookup_mapped(functions@, signatures(functions@), name@, found);
    }
    found
}

/// The entry of a named field.
fn find_field(fields: &Vec<(String, Type)>, name: &String) -> (found: Option<usize>)
    ensures
        match found {
            Some(i) => i < fields@.len() && lookup(typed_names(fields@), name@) == Some(
                type_view(fields@[i as int].1),
            ),
            None => lookup(typed_names(fields@), name@) is None,
        },
{
    let found = last_entry(fields, name);
    proof {
        lemma_lookup_mapped(fields@, typed_names(fields@), name@, found);
    }
    found
}

/// A copy of a type.
fn copy_type(t: &Type) -> (copy: Type)
    ensures
        type_view(copy) == type_view(*t),
{
    t.clone()
}

/// The type annotation of a typed expression.
fn type_of(e: &Expression<Type>) -> (t: Type)
    ensures
        type_view(t) == type_view(e.annotation()),
{
    match e {
        Expression::Literal { typ, .. } => copy_type(typ),
        Expression::Variable { typ, .. } => copy_type(typ),
        Expression::BinaryOperator { typ, .. } => copy_type(typ),
        Expression::FunctionCall { typ, .. } => copy_type(typ),
        Expression::MethodCall { typ, .. } => copy_type(typ),
        Expression::Assign { typ, .. } => copy_type(typ),
        Expression::AssignField { typ, .. } => copy_type(typ),
        Expression::AssignIndex { typ, .. } => copy_type(typ),
        Expression::Increment { typ, .. } => copy_type(typ),
        Expression::Decrement { typ, .. } => copy_type(typ),
        Expression::Negate { typ, .. } => copy_type(typ),
        Expression::Not { typ, .. } => copy_type(typ),
        Expression::BitwiseNot { typ, .. } => copy_type(typ),
        Expression::New { typ, .. } => copy_type(typ),
        Expression::NewArray { typ, .. } => copy_type(typ),
        Expression::Field { typ, .. } => copy_type(typ),
        Expression::Index { typ, .. } => copy_type(typ),
        Expression::AssignSlice { typ, .. } => copy_type(typ),
        Expression::Slice { typ, .. } => copy_type(typ),
        Expression::This { typ } => copy_type(typ),
    }
}

/// Whether the analysis of `raw` gave the typed expression of `expected`, or its error.
pub open spec fn typed_as(
    result: Result<Expression<Type>, SemanticError>,
    raw: ExpressionView,
    expected: Result<TypeTree, SemanticError>,
) -> bool {
    match (result, expected) {
        (Ok(t), Ok(tree)) => shape(t) == raw && types_of(t) == tree,
        (Err(a), Err(b)) => a == b,
        _ => false,
    }
}

/// The shapes of a prefix are the prefix of the shapes.
pub proof fn lemma_shapes_prefix<T>(s: Seq<Expression<T>>, k: int)
    requires
        0 <= k <= s.len(),
    ensures
        shapes(s).len() == s.len(),
        shapes(s.take(k)) == shapes(s).take(k),
    decreases s.len(),
{
    if s.len() > 0 {
        lemma_shapes_prefix(s.drop_last(), if k < s.len() { k } else { 0 });
        if k < s.len() {
            assert(s.take(k) =~= s.drop_last().take(k));
        } else {
            assert(s.take(k) =~= s);
        }
    }
    assert(shapes(s).take(shapes(s).len() as int) =~= shapes(s));
}

/// Once a prefix of the arguments is refused, the call is refused with that error.
pub proof fn lemma_arguments_error_persists(
    env: Environment,
    parameters: Seq<TypeView>,
    arguments: Seq<ExpressionView>,
    n: int,
)
    requires
        parameters.len() == arguments.len(),
        0 <= n <= arguments.len(),
        arguments_in_order(env, parameters.take(n), arguments.take(n)) is Err,
    ensures
        arguments_in_order(env, parameters, arguments) == arguments_in_order(
            env,
            parameters.take(n),
            arguments.take(n),
        ),
    decreases arguments.len(),
{
    if n < arguments.len() {
        assert(parameters.take(n) =~= parameters.drop_last().take(n));
        assert(arguments.take(n) =~= arguments.drop_last().take(n));
        lemma_arguments_error_persists(env, parameters.drop_last(), arguments.drop_last(), n);
    } else {
        assert(parameters.take(n) =~= parameters);
        assert(arguments.take(n) =~= arguments);
    }
}

/// Whether a type is `int`.
fn is_int_type(t: &Type) -> (is_int: bool)
    ensures
        is_int == (type_view(*t) == TypeView::Int),
{
    match t {
        Type::Int => true,
        _ => false,
    }
}

/// Whether a type is `bool`.
fn is_bool_type(t: &Type) -> (boolean: bool)
    ensures
        boolean == (type_view(*t) == TypeView::Bool),
{
    match t {
        Type::Bool => true,
        _ => false,
    }
}

/// Whether a constant index lies outside the size of an indexed array variable.
fn index_out_of_bounds(indexed: &Expression<()>, typ: &Type, index: &Expression<()>) -> (outside:
    bool)
    ensures
        outside == out_of_bounds(shape(*indexed), type_view(*typ), shape(*index)),
{
    match (indexed, index, typ) {
        (Expression::Variable { .. }, Expression::Literal { value, .. }, Type::Array(_, size)) => {
            let chars = crate::io::chars_of(value.as_str());
            proof {
                assert(chars@.subrange(0, chars@.len() as int) =~= chars@);
            }
            match crate::io::parse_signed(chars.as_slice(), 0, chars.len()) {
                Some(k) => k < 0 || k >= (*size as i64),
                None => false,
            }
        },
        _ => false,
    }
}

impl SemanticTable {
    /// Whether every class that a type names is defined.
    fn is_valid_type(&self, t: &Type) -> (valid: bool)
        ensures
            valid == valid_type(self.environment().classes, type_view(*t)),
        decreases t,
    {
        match t {
            Type::Class(name) => find_class(&self.classes, name).is_some(),
            Type::Array(element, _) => self.is_valid_type(element),
            _ => true,
        }
    }

    /// The typed form of an expression, or the first error the analysis meets.
    pub fn analyze_expression(&self, e: &Expression<()>) -> (typed: Result<
        Expression<Type>,
        SemanticError,
    >)
        ensures
            typed_as(typed, shape(*e), typing(self.environment(), shape(*e))),
        decreases e, 2nat,
    {
        match e {
            Expression::Literal { value, .. } => match get_literal_type(value) {
                Ok(typ) => Ok(Expression::Literal { typ, value: value.clone() }),
                Err(x) => Err(x),
            },
            Expression::Variable { name, .. } => match self.find_var(name) {
                Some(typ) => Ok(Expression::Variable { typ, name: name.clone() }),
                None => Err(SemanticError::Undefined),
            },
            Expression::BinaryOperator { .. } => self.analyze_binary(e),
            Expression::FunctionCall { .. } => self.analyze_call(e),
            Expression::MethodCall { .. } => self.analyze_method_call(e),
            Expression::Field { .. } => self.analyze_field(e),
            Expression::Index { .. } => self.analyze_index(e),
            Expression::Assign { .. } => self.analyze_assign(e),
            Expression::AssignField { .. } => self.analyze_assign_field(e),
            Expression::AssignIndex { .. } => self.analyze_assign_index(e),
            Expression::Increment { expression, postfix, .. } => match self.analyze_step(
                expression,
            ) {
                Ok(target) => Ok(
                    Expression::Increment {
                        typ: Type::Int,
                        expression: Box::new(target),
                        postfix: *postfix,
                    },
                ),
                Err(x) => Err(x),
            },
            Expression::Decrement { expression, postfix, .. } => match self.analyze_step(
                expression,
            ) {
                Ok(target) => Ok(
                    Expression::Decrement {
                        typ: Type::Int,
                        expression: Box::new(target),
                        postfix: *postfix,
                    },
                ),
                Err(x) => Err(x),
            },
            Expression::Negate { expression, .. } => match self.analyze_expression(expression) {
                Ok(operand) => {
                    if !is_int_type(&type_of(&operand)) {
                        return Err(SemanticError::NegateType);
                    }
                    Ok(Expression::Negate { typ: Type::Int, expression: Box::new(operand) })
                },
                Err(x) => Err(x),
            },
            Expression::Not { expression, .. } => match self.analyze_expression(expression) {
                Ok(operand) => {
                    if !is_bool_type(&type_of(&operand)) {
                        return Err(SemanticError::NotType);
                    }
                    Ok(Expression::Not { typ: Type::Bool, expression: Box::new(operand) })
                },
                Err(x) => Err(x),
            },
            Expression::New { class_name, .. } => {
                if find_class(&self.classes, class_name).is_none() {
                    return Err(SemanticError::UnknownClass);
                }
                Ok(Expression::New { typ: Type::Class(class_name.clone()), class_name: class_name.clone() })
            },
            Expression::NewArray { element_type, size, .. } => {
                if !self.is_valid_type(element_type) {
                    return Err(SemanticError::UnknownElementType);
                }
                Ok(
                    Expression::NewArray {
                        typ: Type::Array(Box::new(copy_type(element_type)), *size),
                        element_type: copy_type(element_type),
                        size: *size,
                    },
                )
            },
            Expression::This { .. } => match self.current_class_context() {
                Some(name) => Ok(Expression::This { typ: Type::Class(name) }),
                None => Err(SemanticError::ThisOutsideClass),
            },
            _ => Err(SemanticError::UnsupportedExpression),
        }
    }

    /// The typed operand of `++` or `--`.
    fn analyze_step(&self, target: &Expression<()>) -> (typed: Result<
        Expression<Type>,
        SemanticError,
    >)
        ensures
            match (typed, step_typing(self.environment(), shape(*target))) {
                (Ok(t), Ok(tree)) => shape(t) == shape(*target) && tree == (TypeTree {
                    typ: TypeView::Int,
                    parts: seq![types_of(t)],
                }),
                (Err(a), Err(b)) => a == b,
                _ => false,
            },
        decreases target, 3nat,
    {
        let operand = match self.analyze_expression(target) {
            Ok(operand) => operand,
            Err(x) => {
                return Err(x);
            },
        };
        let assignable_target = match target {
            Expression::Variable { .. } => true,
            Expression::Field { .. } => true,
            Expression::Index { .. } => true,
            _ => false,
        };
        if !assignable_target {
            return Err(SemanticError::IncrementTarget);
        }
        if !is_int_type(&type_of(&operand)) {
            return Err(SemanticError::IncrementType);
        }
        Ok(operand)
    }

    /// The typed form of a binary operation.
    fn analyze_binary(&self, e: &Expression<()>) -> (typed: Result<Expression<Type>, SemanticError>)
        requires
            e is BinaryOperator,
        ensures
            typed_as(typed, shape(*e), typing(self.environment(), shape(*e))),
        decreases e, 1nat,
    {
        match e {
            Expression::BinaryOperator { left, operator, right, .. } => {
                let l = match self.analyze_expression(left) {
                    Ok(l) => l,
                    Err(x) => {
                        return Err(x);
                    },
                };
                let r = match self.analyze_expression(right) {
                    Ok(r) => r,
                    Err(x) => {
                        return Err(x);
                    },
                };
                let left_type = type_of(&l);
                let right_type = type_of(&r);
                if !same_type(&left_type, &right_type) {
                    return Err(SemanticError::BinaryTypeMismatch);
                }
                if is_arithmetic_binary_op(operator) && !is_int_type(&left_type) && !is_int_vector(
                    &left_type,
                ) {
                    return Err(SemanticError::ArithmeticType);
                }
                if is_logical_binary_op(operator) && !is_bool_type(&left_type) {
                    return Err(SemanticError::LogicalType);
                }
                if is_relational_binary_op(operator) && !is_int_type(&left_type) {
                    return Err(SemanticError::RelationalType);
                }
                let result_type = if is_compering_binary_op(operator) {
                    Type::Bool
                } else {
                    left_type
                };
                Ok(
                    Expression::BinaryOperator {
                        typ: result_type,
                        left: Box::new(l),
                        operator: *operator,
                        right: Box::new(r),
                    },
                )
            },
            _ => Err(SemanticError::UnsupportedExpression),
        }
    }

    /// The typed arguments of a call to a callee with these parameter types.
    fn analyze_arguments(&self, parameters: &Vec<Type>, arguments: &Vec<Expression<()>>) -> (typed:
        Result<Vec<Expression<Type>>, SemanticError>)
        ensures
            match (
                typed,
                arguments_typing(
                    self.environment(),
                    parameters@.map_values(|t: Type| type_view(t)),
                    shapes(arguments@),
                ),
            ) {
                (Ok(v), Ok(t)) => shapes(v@) == shapes(arguments@) && types_of_all(v@) == t,
                (Err(a), Err(b)) => a == b,
                _ => false,
            },
        decreases arguments, 1nat,
    {
        let ghost env = self.environment();
        let ghost all_parameters = parameters@.map_values(|t: Type| type_view(t));
        let ghost all_arguments = shapes(arguments@);
        proof {
            lemma_shapes_prefix(arguments@, 0);
        }
        if parameters.len() != arguments.len() {
            return Err(SemanticError::ArgumentCountMismatch);
        }
        let mut typed: Vec<Expression<Type>> = Vec::new();
        let mut k: usize = 0;
        proof {
            assert(all_parameters.take(0) =~= Seq::<TypeView>::empty());
            assert(all_arguments.take(0) =~= Seq::<ExpressionView>::empty());
            assert(typed@ =~= Seq::<Expression<Type>>::empty());
        }
        while k < arguments.len()
            invariant
                env == self.environment(),
                all_parameters == parameters@.map_values(|t: Type| type_view(t)),
                all_arguments == shapes(arguments@),
                all_arguments.len() == arguments@.len(),
                parameters@.len() == arguments@.len(),
                k <= arguments@.len(),
                shapes(typed@) == all_arguments.take(k as int),
                arguments_in_order(env, all_parameters.take(k as int), all_arguments.take(k as int))
                    == Ok::<Seq<TypeTree>, SemanticError>(types_of_all(typed@)),
            decreases arguments@.len() - k,
        {
            proof {
                lemma_shapes_prefix(arguments@, k + 1);
                lemma_shapes_prefix(arguments@, k as int);
                assert(arguments@.take(k + 1).drop_last() =~= arguments@.take(k as int));
                assert(all_parameters.take(k + 1).drop_last() =~= all_parameters.take(k as int));
                assert(all_arguments.take(k + 1).drop_last() =~= all_arguments.take(k as int));
                assert(all_arguments.take(k + 1).last() == shape(arguments@[k as int]));
                assert(all_parameters.take(k + 1).last() == type_view(parameters@[k as int]));
            }
            let argument = match self.analyze_expression(&arguments[k]) {
                Ok(a) => a,
                Err(x) => {
                    proof {
                        lemma_arguments_error_persists(env, all_parameters, all_arguments, k + 1);
                    }
                    return Err(x);
                },
            };
            if !same_type(&parameters[k], &type_of(&argument)) {
                proof {
                    lemma_arguments_error_persists(env, all_parameters, all_arguments, k + 1);
                }
                return Err(SemanticError::ArgumentTypeMismatch);
            }
            let ghost before = typed@;
            typed.push(argument);
            proof {
                assert(typed@.drop_last() =~= before);
            }
            k = k + 1;
        }
        proof {
            assert(all_parameters.take(k as int) =~= all_parameters);
            assert(all_arguments.take(k as int) =~= all_arguments);
        }
        Ok(typed)
    }

    /// The typed form of a function call.
    fn analyze_call(&self, e: &Expression<()>) -> (typed: Result<Expression<Type>, SemanticError>)
        requires
            e is FunctionCall,
        ensures
            typed_as(typed, shape(*e), typing(self.environment(), shape(*e))),
        decreases e, 1nat,
    {
        match e {
            Expression::FunctionCall { name, arguments, .. } => {
                match find_function(&self.functions, name) {
                    None => Err(SemanticError::FunctionNotFound),
                    Some(i) => {
                        let signature = &self.functions[i].1;
                        match self.analyze_arguments(&signature.parameters, arguments) {
                            Ok(typed_arguments) => Ok(
                                Expression::FunctionCall {
                                    typ: copy_type(&signature.result_type),
                                    name: name.clone(),
                                    arguments: typed_arguments,
                                },
                            ),
                            Err(x) => Err(x),
                        }
                    },
                }
            },
            _ => Err(SemanticError::UnsupportedExpression),
        }
    }

    /// The typed form of a method call.
    fn analyze_method_call(&self, e: &Expression<()>) -> (typed: Result<
        Expression<Type>,
        SemanticError,
    >)
        requires
            e is MethodCall,
        ensures
            typed_as(typed, shape(*e), typing(self.environment(), shape(*e))),
        decreases e, 1nat,
    {
        match e {
            Expression::MethodCall { object, name, arguments, .. } => {
                let typed_object = match self.analyze_expression(object) {
                    Ok(o) => o,
                    Err(x) => {
                        return Err(x);
                    },
                };
                match type_of(&typed_object) {
                    Type::Class(class_name) => match find_class(&self.classes, &class_name) {
                        None => Err(SemanticError::ClassNotFound),
                        Some(i) => {
                            let class = &self.classes[i].1;
                            match find_function(&class.methods, name) {
                                None => Err(SemanticError::MethodNotFound),
                                Some(j) => {
                                    let signature = &class.methods[j].1;
                                    match self.analyze_arguments(&signature.parameters, arguments) {
                                        Ok(typed_arguments) => {
                                            let result = Expression::MethodCall {
                                                typ: copy_type(&signature.result_type),
                                                object: Box::new(typed_object),
                                                name: name.clone(),
                                                arguments: typed_arguments,
                                            };
                                            proof {
                                                assert(types_of(result).parts =~= seq![
                                                    types_of(typed_object),
                                                ] + types_of_all(typed_arguments@));
                                            }
                                            Ok(result)
                                        },
                                        Err(x) => Err(x),
                                    }
                                },
                            }
                        },
                    },
                    _ => Err(SemanticError::MethodCallOnNonObject),
                }
            },
            _ => Err(SemanticError::UnsupportedExpression),
        }
    }

    /// The typed form of a field read.
    fn analyze_field(&self, e: &Expression<()>) -> (typed: Result<Expression<Type>, SemanticError>)
        requires
            e is Field,
        ensures
            typed_as(typed, shape(*e), typing(self.environment(), shape(*e))),
        decreases e, 1nat,
    {
        match e {
            Expression::Field { object, name, .. } => {
                let typed_object = match self.analyze_expression(object) {
                    Ok(o) => o,
                    Err(x) => {
                        return Err(x);
                    },
                };
                match type_of(&typed_object) {
                    Type::Class(class_name) => match find_class(&self.classes, &class_name) {
                        None => Err(SemanticError::ClassNotFound),
                        Some(i) => {
                            let class = &self.classes[i].1;
                            match find_field(&class.fields, name) {
                                None => Err(SemanticError::FieldNotFound),
                                Some(j) => Ok(
                                    Expression::Field {
                                        typ: copy_type(&class.fields[j].1),
                                        object: Box::new(typed_object),
                                        name: name.clone(),
                                    },
                                ),
                            }
                        },
                    },
                    _ => Err(SemanticError::FieldAccessOnNonObject),
                }
            },
            _ => Err(SemanticError::UnsupportedExpression),
        }
    }

    /// The typed form of an element read.
    fn analyze_index(&self, e: &Expression<()>) -> (typed: Result<Expression<Type>, SemanticError>)
        requires
            e is Index,
        ensures
            typed_as(typed, shape(*e), typing(self.environment(), shape(*e))),
        decreases e, 1nat,
    {
        match e {
            Expression::Index { expression, index, .. } => {
                let typed_expression = match self.analyze_expression(expression) {
                    Ok(x) => x,
                    Err(x) => {
                        return Err(x);
                    },
                };
                let typed_index = match self.analyze_expression(index) {
                    Ok(i) => i,
                    Err(x) => {
                        return Err(x);
                    },
                };
                if !is_int_type(&type_of(&typed_index)) {
                    return Err(SemanticError::IndexNotInt);
                }
                let array_type = type_of(&typed_expression);
                if index_out_of_bounds(expression, &array_type, index) {
                    return Err(SemanticError::IndexOutOfBounds);
                }
                match array_type {
                    Type::Array(element, _) => Ok(
                        Expression::Index {
                            typ: *element,
                            expression: Box::new(typed_expression),
                            index: Box::new(typed_index),
                        },
                    ),
                    _ => Err(SemanticError::IndexingNonArray),
                }
            },
            _ => Err(SemanticError::UnsupportedExpression),
        }
    }

    /// The typed form of an assignment to a variable.
    fn analyze_assign(&self, e: &Expression<()>) -> (typed: Result<Expression<Type>, SemanticError>)
        requires
            e is Assign,
        ensures
            typed_as(typed, shape(*e), typing(self.environment(), shape(*e))),
        decreases e, 1nat,
    {
        match e {
            Expression::Assign { name, value, .. } => {
                let variable_type = match self.find_var(name) {
                    Some(t) => t,
                    None => {
                        return Err(SemanticError::Undefined);
                    },
                };
                let typed_value = match self.analyze_expression(value) {
                    Ok(v) => v,
                    Err(x) => {
                        return Err(x);
                    },
                };
                if !same_type(&variable_type, &type_of(&typed_value)) {
                    return Err(SemanticError::AssignTypeMismatch);
                }
                Ok(
                    Expression::Assign {
                        typ: variable_type,
                        name: name.clone(),
                        value: Box::new(typed_value),
                    },
                )
            },
            _ => Err(SemanticError::UnsupportedExpression),
        }
    }

    /// The typed form of an assignment to a field.
    fn analyze_assign_field(&self, e: &Expression<()>) -> (typed: Result<
        Expression<Type>,
        SemanticError,
    >)
        requires
            e is AssignField,
        ensures
            typed_as(typed, shape(*e), typing(self.environment(), shape(*e))),
        decreases e, 1nat,
    {
        match e {
            Expression::AssignField { object, name, value, .. } => {
                let typed_object = match self.analyze_expression(object) {
                    Ok(o) => o,
                    Err(x) => {
                        return Err(x);
                    },
                };
                let typed_value = match self.analyze_expression(value) {
                    Ok(v) => v,
                    Err(x) => {
                        return Err(x);
                    },
                };
                match type_of(&typed_object) {
                    Type::Class(class_name) => match find_class(&self.classes, &class_name) {
                        None => Err(SemanticError::ClassNotFound),
                        Some(i) => {
                            let class = &self.classes[i].1;
                            match find_field(&class.fields, name) {
                                None => Err(SemanticError::FieldNotFound),
                                Some(j) => {
                                    let field_type = copy_type(&class.fields[j].1);
                                    if !same_type(&field_type, &type_of(&typed_value)) {
                                        return Err(SemanticError::FieldAssignMismatch);
                                    }
                                    Ok(
                                        Expression::AssignField {
                                            typ: field_type,
                                            object: Box::new(typed_object),
                                            name: name.clone(),
                                            value: Box::new(typed_value),
                                        },
                                    )
                                },
                            }
                        },
                    },
                    _ => Err(SemanticError::NotAnObject),
                }
            },
            _ => Err(SemanticError::UnsupportedExpression),
        }
    }

    /// The typed form of an assignment to an element.
    fn analyze_assign_index(&self, e: &Expression<()>) -> (typed: Result<
        Expression<Type>,
        SemanticError,
    >)
        requires
            e is AssignIndex,
        ensures
            typed_as(typed, shape(*e), typing(self.environment(), shape(*e))),
        decreases e, 1nat,
    {
        match e {
            Expression::AssignIndex { expression, index, value, .. } => {
                let typed_expression = match self.analyze_expression(expression) {
                    Ok(x) => x,
                    Err(x) => {
                        return Err(x);
                    },
                };
                let typed_index = match self.analyze_expression(index) {
                    Ok(i) => i,
                    Err(x) => {
                        return Err(x);
                    },
                };
                let typed_value = match self.analyze_expression(value) {
                    Ok(v) => v,
                    Err(x) => {
                        return Err(x);
                    },
                };
                if !is_int_type(&type_of(&typed_index)) {
                    return Err(SemanticError::IndexNotInt);
                }
                let array_type = type_of(&typed_expression);
                if index_out_of_bounds(expression, &array_type, index) {
                    return Err(SemanticError::IndexOutOfBounds);
                }
                match array_type {
                    Type::Array(element, _) => {
                        if !same_type(&element, &type_of(&typed_value)) {
                            return Err(SemanticError::ArrayAssignTypeMismatch);
                        }
                        Ok(
                            Expression::AssignIndex {
                                typ: *element,
                                expression: Box::new(typed_expression),
                                index: Box::new(typed_index),
                                value: Box::new(typed_value),
                            },
                        )
                    },
                    _ => Err(SemanticError::IndexingNonArray),
                }
            },
            _ => Err(SemanticError::UnsupportedExpression),
        }
    }
}

/// A typed statement of the source language.
pub enum TypedAbstractSyntaxNode {
    If { condition: Expression<Type> },
    ElseIf { condition: Expression<Type> },
    Else,
    While { condition: Expression<Type> },
    For {
        initializer: Option<Box<TypedAbstractSyntaxNode>>,
        condition: Option<Expression<Type>>,
        increment: Option<Expression<Type>>,
    },
    Callable { result_type: Type, name: String, arguments: Vec<Variable> },
    Class { name: String },
    Expression { expression: Expression<Type> },
    Declaration { typ: Type, name: String, expression: Option<Expression<Type>> },
    Return { value: Option<Expression<Type>> },
    Break,
    Continue,
    Scope,
    File,
}

/// A tree of typed statements.
pub struct TypedAbstractSyntaxTree {
    pub node: TypedAbstractSyntaxNode,
    pub children: Vec<TypedAbstractSyntaxTree>,
}

impl TypedAbstractSyntaxTree {
    /// A tree of one typed statement without a body.
    pub fn new(node: TypedAbstractSyntaxNode) -> (tree: Self)
        ensures
            tree.node == node,
            tree.children@.len() == 0,
    {
        TypedAbstractSyntaxTree { node, children: Vec::new() }
    }

    /// A tree of a typed statement and its body.
    pub fn with_children(node: TypedAbstractSyntaxNode, children: Vec<TypedAbstractSyntaxTree>) -> (tree:
        Self)
        ensures
            tree.node == node,
            tree.children@ == children@,
    {
        TypedAbstractSyntaxTree { node, children }
    }
}

/// A typed expression: its shape and its types.
pub open spec fn typed_view(e: Expression<Type>) -> (ExpressionView, TypeTree) {
    (shape(e), types_of(e))
}

/// The view of an optional typed expression.
pub open spec fn optional_typed_view(e: Option<Expression<Type>>) -> Option<(ExpressionView, TypeTree)> {
    match e {
        Some(x) => Some(typed_view(x)),
        None => None,
    }
}

/// A typed statement with its names as sequences of characters.
pub enum TypedNodeView {
    If((ExpressionView, TypeTree)),
    ElseIf((ExpressionView, TypeTree)),
    Else,
    While((ExpressionView, TypeTree)),
    For(
        Option<Box<TypedNodeView>>,
        Option<(ExpressionView, TypeTree)>,
        Option<(ExpressionView, TypeTree)>,
    ),
    Callable(TypeView, Seq<char>, Seq<(TypeView, Seq<char>)>),
    Class(Seq<char>),
    Expression((ExpressionView, TypeTree)),
    Declaration(TypeView, Seq<char>, Option<(ExpressionView, TypeTree)>),
    Return(Option<(ExpressionView, TypeTree)>),
    Break,
    Continue,
    Scope,
    File,
}

/// A tree of typed statement views.
pub struct TypedTreeView {
    pub node: TypedNodeView,
    pub children: Seq<TypedTreeView>,
}

/// The view of a typed statement.
pub open spec fn typed_node_view(node: TypedAbstractSyntaxNode) -> TypedNodeView
    decreases node,
{
    match node {
        TypedAbstractSyntaxNode::If { condition } => TypedNodeView::If(typed_view(condition)),
        TypedAbstractSyntaxNode::ElseIf { condition } => TypedNodeView::ElseIf(typed_view(condition)),
        TypedAbstractSyntaxNode::Else => TypedNodeView::Else,
        TypedAbstractSyntaxNode::While { condition } => TypedNodeView::While(typed_view(condition)),
        TypedAbstractSyntaxNode::For { initializer, condition, increment } => TypedNodeView::For(
            match initializer {
                Some(n) => Some(Box::new(typed_node_view(*n))),
                None => None,
            },
            optional_typed_view(condition),
            optional_typed_view(increment),
        ),
        TypedAbstractSyntaxNode::Callable { result_type, name, arguments } => TypedNodeView::Callable(
            type_view(result_type),
            name@,
            arguments@.map_values(|v: Variable| variable_view(v)),
        ),
        TypedAbstractSyntaxNode::Class { name } => TypedNodeView::Class(name@),
        TypedAbstractSyntaxNode::Expression { expression } => TypedNodeView::Expression(
            typed_view(expression),
        ),
        TypedAbstractSyntaxNode::Declaration { typ, name, expression } => TypedNodeView::Declaration(
            type_view(typ),
            name@,
            optional_typed_view(expression),
        ),
        TypedAbstractSyntaxNode::Return { value } => TypedNodeView::Return(optional_typed_view(value)),
        TypedAbstractSyntaxNode::Break => TypedNodeView::Break,
        TypedAbstractSyntaxNode::Continue => TypedNodeView::Continue,
        TypedAbstractSyntaxNode::Scope => TypedNodeView::Scope,
        TypedAbstractSyntaxNode::File => TypedNodeView::File,
    }
}

/// The view of a typed statement tree.
pub open spec fn typed_tree_view(tree: TypedAbstractSyntaxTree) -> TypedTreeView
    decreases tree,
{
    TypedTreeView { node: typed_node_view(tree.node), children: typed_trees_view(tree.children@) }
}

/// The views of a sequence of typed statement trees.
pub open spec fn typed_trees_view(trees: Seq<TypedAbstractSyntaxTree>) -> Seq<TypedTreeView>
    decreases trees,
{
    if trees.len() == 0 {
        Seq::empty()
    } else {
        typed_trees_view(trees.drop_last()).push(typed_tree_view(trees.last()))
    }
}

/// The frame that a statement opens for the statements inside it.
pub open spec fn frame_of(node: NodeView) -> FrameView {
    match node {
        NodeView::Class(name) => FrameView::Class(name),
        NodeView::Callable(typ, _, _) => FrameView::Callable(typ),
        NodeView::While(_) => FrameView::Loop,
        NodeView::For(_, _, _) => FrameView::Loop,
        _ => FrameView::Other,
    }
}

/// The result type of the innermost enclosing function, if any.
pub open spec fn function_result(frames: Seq<FrameView>) -> Option<TypeView>
    decreases frames.len(),
{
    if frames.len() == 0 {
        None
    } else {
        match frames.last() {
            FrameView::Callable(typ) => Some(typ),
            _ => function_result(frames.drop_last()),
        }
    }
}

/// Whether some enclosing statement is a loop.
pub open spec fn inside_loop(frames: Seq<FrameView>) -> bool {
    exists|i: int| 0 <= i < frames.len() && frames[i] == FrameView::Loop
}

/// The table with one more, empty, scope; or with `scope` as its innermost scope.
pub open spec fn with_scope(t: TableView, scope: Seq<(Seq<char>, TypeView)>) -> TableView {
    TableView { scopes: t.scopes.push(scope), ..t }
}

/// The table without its innermost scope.
pub open spec fn without_scope(t: TableView) -> TableView {
    TableView { scopes: t.scopes.drop_last(), ..t }
}

/// The table with a variable declared in its innermost scope.
pub open spec fn declare(t: TableView, name: Seq<char>, typ: TypeView) -> TableView {
    TableView { scopes: t.scopes.drop_last().push(t.scopes.last().push((name, typ))), ..t }
}

/// The checks of a declaration: a class type must be defined, and an initial value must have
/// the declared type; the variable is then declared.
pub open spec fn declaration_checks(
    t: TableView,
    typ: TypeView,
    name: Seq<char>,
    value: Option<TypeTree>,
) -> Result<TableView, SemanticError> {
    if typ matches TypeView::Class(c) && lookup(t.classes, c) is None {
        Err(SemanticError::UnknownType)
    } else if value matches Some(v) && v.typ != typ {
        Err(SemanticError::DeclarationTypeMismatch)
    } else {
        Ok(declare(t, name, typ))
    }
}

/// The types of an optional expression.
pub open spec fn optional_typing(env: Environment, e: Option<ExpressionView>) -> Result<
    Option<TypeTree>,
    SemanticError,
> {
    match e {
        None => Ok(None),
        Some(x) => match typing(env, x) {
            Ok(tree) => Ok(Some(tree)),
            Err(error) => Err(error),
        },
    }
}

/// The typed view of an optional expression and its types.
pub open spec fn paired(e: Option<ExpressionView>, types: Option<TypeTree>) -> Option<
    (ExpressionView, TypeTree),
> {
    match (e, types) {
        (Some(x), Some(t)) => Some((x, t)),
        _ => None,
    }
}

/// The scope of a function's parameters: each name with its type, in order.
pub open spec fn parameter_scope(parameters: Seq<(TypeView, Seq<char>)>) -> Seq<(Seq<char>, TypeView)> {
    parameters.map_values(|p: (TypeView, Seq<char>)| (p.1, p.0))
}

/// The index of the first `else` among statements, or -1.
pub open spec fn first_else(children: Seq<TreeView>) -> int
    decreases children.len(),
{
    if children.len() == 0 {
        -1
    } else {
        let before = first_else(children.drop_last());
        if before >= 0 {
            before
        } else if children.last().node is Else {
            children.len() - 1
        } else {
            -1
        }
    }
}

/// Whether every path through a statement ends in `return`.
pub open spec fn guarantees_return(tree: TreeView) -> bool
    decreases tree, 2nat,
{
    match tree.node {
        NodeView::Return(_) => true,
        NodeView::If(_) => if_guarantees_return(tree.children),
        NodeView::Scope => any_guarantees_return(tree.children, false),
        NodeView::While(_) => any_guarantees_return(tree.children, false),
        NodeView::Callable(_, _, _) => any_guarantees_return(tree.children, false),
        _ => false,
    }
}

/// Whether some statement, other than an `else` when `skip_else` holds, guarantees a return.
pub open spec fn any_guarantees_return(children: Seq<TreeView>, skip_else: bool) -> bool
    decreases children, 0nat,
{
    if children.len() == 0 {
        false
    } else {
        any_guarantees_return(children.drop_last(), skip_else) || (!(skip_else
            && children.last().node is Else) && guarantees_return(children.last()))
    }
}

/// Whether an `if` with these statements guarantees a return: it has an `else`, one of its own
/// statements guarantees it, and so does the `else` chain.
pub open spec fn if_guarantees_return(children: Seq<TreeView>) -> bool
    decreases children, 1nat,
{
    let e = first_else(children);
    if 0 <= e < children.len() {
        any_guarantees_return(children, true) && else_guarantees_return(children[e].children)
    } else {
        false
    }
}

/// Whether the statements of an `else` guarantee a return, following nested `else` chains.
pub open spec fn else_guarantees_return(children: Seq<TreeView>) -> bool
    decreases children, 1nat,
{
    let e = first_else(children);
    if 0 <= e < children.len() {
        else_guarantees_return(children[e].children)
    } else {
        any_guarantees_return(children, false)
    }
}

/// The analysis of a statement tree: its frame is opened, the statement is checked, and the
/// frame is closed again. The result is the typed tree and the table after it, or the first
/// error.
pub open spec fn analysis(t: TableView, tree: TreeView) -> Result<(TypedTreeView, TableView), SemanticError>
    decreases tree, 2nat,
{
    let inner = TableView { frames: t.frames.push(frame_of(tree.node)), ..t };
    match statement_analysis(inner, tree) {
        Err(e) => Err(e),
        Ok((typed, after)) => Ok((typed, TableView { frames: after.frames.drop_last(), ..after })),
    }
}

/// The analysis of the statements of a body, in order, each in the table the previous left.
pub open spec fn body_analysis(t: TableView, children: Seq<TreeView>) -> Result<
    (Seq<TypedTreeView>, TableView),
    SemanticError,
>
    decreases children, 0nat,
{
    if children.len() == 0 {
        Ok((Seq::empty(), t))
    } else {
        match body_analysis(t, children.drop_last()) {
            Err(e) => Err(e),
            Ok((before, t1)) => match analysis(t1, children.last()) {
                Err(e) => Err(e),
                Ok((typed, t2)) => Ok((before.push(typed), t2)),
            },
        }
    }
}

/// The body of a statement analysed in a scope of its own.
pub open spec fn scoped_body(
    t: TableView,
    scope: Seq<(Seq<char>, TypeView)>,
    node: TypedNodeView,
    children: Seq<TreeView>,
) -> Result<(TypedTreeView, TableView), SemanticError>
    decreases children, 1nat,
{
    match body_analysis(with_scope(t, scope), children) {
        Err(e) => Err(e),
        Ok((typed, after)) => Ok((TypedTreeView { node, children: typed }, without_scope(after))),
    }
}

/// The first pass over a class body: its field declarations, in order.
pub open spec fn class_fields(t: TableView, children: Seq<TreeView>) -> Result<TableView, SemanticError>
    decreases children,
{
    if children.len() == 0 {
        Ok(t)
    } else {
        match class_fields(t, children.drop_last()) {
            Err(e) => Err(e),
            Ok(t1) => match children.last().node {
                NodeView::Declaration(typ, name, value) => match optional_typing(
                    environment_of(t1),
                    value,
                ) {
                    Err(e) => Err(e),
                    Ok(types) => declaration_checks(t1, typ, name, types),
                },
                _ => Ok(t1),
            },
        }
    }
}

/// The second pass over a class body: each member typed, in order; the fields typed anew in
/// the class scope, the other members analysed.
pub open spec fn class_members(t: TableView, children: Seq<TreeView>) -> Result<
    (Seq<TypedTreeView>, TableView),
    SemanticError,
>
    decreases children, 0nat,
{
    if children.len() == 0 {
        Ok((Seq::empty(), t))
    } else {
        match class_members(t, children.drop_last()) {
            Err(e) => Err(e),
            Ok((before, t1)) => match children.last().node {
                NodeView::Declaration(typ, name, value) => match optional_typing(
                    environment_of(t1),
                    value,
                ) {
                    Err(e) => Err(e),
                    Ok(types) => Ok(
                        (
                            before.push(
                                TypedTreeView {
                                    node: TypedNodeView::Declaration(typ, name, paired(value, types)),
                                    children: Seq::empty(),
                                },
                            ),
                            t1,
                        ),
                    ),
                },
                _ => match analysis(t1, children.last()) {
                    Err(e) => Err(e),
                    Ok((typed, t2)) => Ok((before.push(typed), t2)),
                },
            },
        }
    }
}

/// A typed tree without children.
pub open spec fn typed_leaf(node: TypedNodeView) -> TypedTreeView {
    TypedTreeView { node, children: Seq::empty() }
}

/// The check of one statement, in a table whose frames already hold the statement's own.
pub open spec fn statement_analysis(t: TableView, tree: TreeView) -> Result<
    (TypedTreeView, TableView),
    SemanticError,
>
    decreases tree, 1nat,
{
    let env = environment_of(t);
    match tree.node {
        NodeView::If(c) => match typing(env, c) {
            Err(e) => Err(e),
            Ok(ct) => if ct.typ != TypeView::Bool {
                Err(SemanticError::ConditionNotBool)
            } else {
                scoped_body(t, Seq::empty(), TypedNodeView::If((c, ct)), tree.children)
            },
        },
        NodeView::While(c) => match typing(env, c) {
            Err(e) => Err(e),
            Ok(ct) => if ct.typ != TypeView::Bool {
                Err(SemanticError::ConditionNotBool)
            } else {
                scoped_body(t, Seq::empty(), TypedNodeView::While((c, ct)), tree.children)
            },
        },
        NodeView::Callable(result_type, name, parameters) => match scoped_body(
            t,
            parameter_scope(parameters),
            TypedNodeView::Callable(result_type, name, parameters),
            tree.children,
        ) {
            Err(e) => Err(e),
            Ok(done) => if !guarantees_return(tree) {
                Err(SemanticError::MissingReturn)
            } else {
                Ok(done)
            },
        },
        NodeView::Class(name) => match class_fields(with_scope(t, Seq::empty()), tree.children) {
            Err(e) => Err(e),
            Ok(t1) => match class_members(t1, tree.children) {
                Err(e) => Err(e),
                Ok((typed, t2)) => Ok(
                    (
                        TypedTreeView { node: TypedNodeView::Class(name), children: typed },
                        without_scope(t2),
                    ),
                ),
            },
        },
        NodeView::File => scoped_body(t, Seq::empty(), TypedNodeView::File, tree.children),
        NodeView::Scope => scoped_body(t, Seq::empty(), TypedNodeView::Scope, tree.children),
        NodeView::Else => scoped_body(t, Seq::empty(), TypedNodeView::Else, tree.children),
        NodeView::Expression(e) => match typing(env, e) {
            Err(x) => Err(x),
            Ok(et) => Ok((typed_leaf(TypedNodeView::Expression((e, et))), t)),
        },
        NodeView::Declaration(typ, name, value) => match optional_typing(env, value) {
            Err(x) => Err(x),
            Ok(types) => {
                let typed = typed_leaf(TypedNodeView::Declaration(typ, name, paired(value, types)));
                if t.frames.len() >= 2 && t.frames[t.frames.len() - 2] is Class {
                    Ok((typed, t))
                } else {
                    match declaration_checks(t, typ, name, types) {
                        Err(x) => Err(x),
                        Ok(t1) => Ok((typed, t1)),
                    }
                }
            },
        },
        NodeView::Return(value) => match function_result(t.frames) {
            None => Err(SemanticError::ReturnOutsideFunction),
            Some(result_type) => match optional_typing(env, value) {
                Err(x) => Err(x),
                Ok(types) => {
                    let returned = match types {
                        Some(v) => v.typ,
                        None => TypeView::Void,
                    };
                    if returned != result_type {
                        Err(SemanticError::ReturnTypeMismatch)
                    } else {
                        Ok((typed_leaf(TypedNodeView::Return(paired(value, types))), t))
                    }
                },
            },
        },
        NodeView::Break => if inside_loop(t.frames) {
            Ok((typed_leaf(TypedNodeView::Break), t))
        } else {
            Err(SemanticError::JumpOutsideLoop)
        },
        NodeView::Continue => if inside_loop(t.frames) {
            Ok((typed_leaf(TypedNodeView::Continue), t))
        } else {
            Err(SemanticError::JumpOutsideLoop)
        },
        _ => Err(SemanticError::UnsupportedStatement),
    }
}

/// The index of the last entry for `key`, or -1.
pub open spec fn last_key_index<V>(entries: Seq<(Seq<char>, V)>, key: Seq<char>) -> int
    decreases entries.len(),
{
    if entries.len() == 0 {
        -1
    } else if entries.last().0 == key {
        entries.len() - 1
    } else {
        last_key_index(entries.drop_last(), key)
    }
}

/// A class without members.
pub open spec fn empty_class() -> ClassView {
    ClassView { fields: Seq::empty(), methods: Seq::empty() }
}

/// The classes with a member added to the last entry of a class, if there is one.
pub open spec fn add_member(
    classes: Seq<(Seq<char>, ClassView)>,
    class: Seq<char>,
    field: Option<(Seq<char>, TypeView)>,
    method: Option<(Seq<char>, (TypeView, Seq<TypeView>))>,
) -> Seq<(Seq<char>, ClassView)> {
    let i = last_key_index(classes, class);
    if 0 <= i < classes.len() {
        let info = classes[i].1;
        let updated = ClassView {
            fields: match field {
                Some(f) => info.fields.push(f),
                None => info.fields,
            },
            methods: match method {
                Some(m) => info.methods.push(m),
                None => info.methods,
            },
        };
        classes.update(i, (classes[i].0, updated))
    } else {
        classes
    }
}

/// The first walk over a program: it records every class, every function (as a method of
/// its class when it is inside one) and every field declared directly in a class, in order,
/// looking into files, scopes and classes. A second definition of a class, or of a function
/// in the same place, is an error.
pub open spec fn collection(t: TableView, tree: TreeView) -> Result<TableView, SemanticError>
    decreases tree, 1nat,
{
    match tree.node {
        NodeView::Class(name) => if lookup(t.classes, name) is Some {
            Err(SemanticError::ClassExists)
        } else {
            let opened = TableView {
                classes: t.classes.push((name, empty_class())),
                frames: t.frames.push(FrameView::Class(name)),
                ..t
            };
            match collection_all(opened, tree.children) {
                Err(e) => Err(e),
                Ok(after) => Ok(TableView { frames: after.frames.drop_last(), ..after }),
            }
        },
        NodeView::Callable(result_type, name, parameters) => {
            let signature = (result_type, parameters.map_values(|p: (TypeView, Seq<char>)| p.0));
            match class_context(t.frames) {
                Some(class) => {
                    let i = last_key_index(t.classes, class);
                    if 0 <= i < t.classes.len() && lookup(t.classes[i].1.methods, name) is Some {
                        Err(SemanticError::FunctionExists)
                    } else {
                        Ok(
                            TableView {
                                classes: add_member(t.classes, class, None, Some((name, signature))),
                                ..t
                            },
                        )
                    }
                },
                None => if lookup(t.functions, name) is Some {
                    Err(SemanticError::FunctionExists)
                } else {
                    Ok(TableView { functions: t.functions.push((name, signature)), ..t })
                },
            }
        },
        NodeView::Declaration(typ, name, _) => if t.frames.len() > 0 {
            match t.frames.last() {
                FrameView::Class(class) => Ok(
                    TableView { classes: add_member(t.classes, class, Some((name, typ)), None), ..t },
                ),
                _ => Ok(t),
            }
        } else {
            Ok(t)
        },
        NodeView::File => match collection_all(
            TableView { frames: t.frames.push(FrameView::Other), ..t },
            tree.children,
        ) {
            Err(e) => Err(e),
            Ok(after) => Ok(TableView { frames: after.frames.drop_last(), ..after }),
        },
        NodeView::Scope => match collection_all(
            TableView { frames: t.frames.push(FrameView::Other), ..t },
            tree.children,
        ) {
            Err(e) => Err(e),
            Ok(after) => Ok(TableView { frames: after.frames.drop_last(), ..after }),
        },
        _ => Ok(t),
    }
}

/// The first walk over a sequence of statements, in order.
pub open spec fn collection_all(t: TableView, trees: Seq<TreeView>) -> Result<TableView, SemanticError>
    decreases trees, 0nat,
{
    if trees.len() == 0 {
        Ok(t)
    } else {
        match collection_all(t, trees.drop_last()) {
            Err(e) => Err(e),
            Ok(t1) => collection(t1, trees.last()),
        }
    }
}

/// The table in which the analysis starts: one empty scope and nothing else.
pub open spec fn initial_table() -> TableView {
    TableView {
        scopes: seq![Seq::empty()],
        frames: Seq::empty(),
        functions: Seq::empty(),
        classes: Seq::empty(),
    }
}

/// Whether a function or a method of some class is named `Main`.
pub open spec fn has_main(t: TableView) -> bool {
    let main = seq!['M', 'a', 'i', 'n'];
    lookup(t.functions, main) is Some || exists|i: int|
        0 <= i < t.classes.len() && lookup(#[trigger] t.classes[i].1.methods, main) is Some
}

/// The semantic analysis of a program: definitions are collected first, a `Main` function or
/// method must exist, and then every statement is checked and typed.
pub open spec fn semantics(tree: TreeView) -> Result<TypedTreeView, SemanticError> {
    match collection(initial_table(), tree) {
        Err(e) => Err(e),
        Ok(t) => if !has_main(t) {
            Err(SemanticError::MissingMain)
        } else {
            match analysis(t, tree) {
                Err(e) => Err(e),
                Ok((typed, _)) => Ok(typed),
            }
        },
    }
}

/// The view of a tree among trees is the view of that tree.
pub proof fn lemma_trees_view_index(s: Seq<RawAbstractSyntaxTree>, i: int)
    requires
        0 <= i < s.len(),
    ensures
        trees_view(s).len() == s.len(),
        trees_view(s)[i] == tree_view(s[i]),
    decreases s.len(),
{
    lemma_trees_view_len(s.drop_last());
    if i < s.len() - 1 {
        lemma_trees_view_index(s.drop_last(), i);
    }
}

/// There are as many tree views as trees.
pub proof fn lemma_trees_view_len(s: Seq<RawAbstractSyntaxTree>)
    ensures
        trees_view(s).len() == s.len(),
    decreases s.len(),
{
    if s.len() > 0 {
        lemma_trees_view_len(s.drop_last());
    }
}

/// The views of a prefix of trees are the prefix of the views.
pub proof fn lemma_trees_view_prefix(s: Seq<RawAbstractSyntaxTree>, k: int)
    requires
        0 <= k <= s.len(),
    ensures
        trees_view(s.take(k)) == trees_view(s).take(k),
    decreases s.len(),
{
    lemma_trees_view_len(s);
    if s.len() > 0 {
        if k < s.len() {
            lemma_trees_view_prefix(s.drop_last(), k);
            assert(s.take(k) =~= s.drop_last().take(k));
            lemma_trees_view_len(s.drop_last());
            assert(trees_view(s).take(k) =~= trees_view(s.drop_last()).take(k));
        } else {
            assert(s.take(k) =~= s);
        }
    }
    assert(trees_view(s).take(trees_view(s).len() as int) =~= trees_view(s));
}

/// The view of the trees up to and including `s[k]`.
pub proof fn lemma_trees_view_step(s: Seq<RawAbstractSyntaxTree>, k: int)
    requires
        0 <= k < s.len(),
    ensures
        trees_view(s.take(k + 1)) == trees_view(s.take(k)).push(tree_view(s[k])),
{
    assert(s.take(k + 1).drop_last() =~= s.take(k));
    assert(s.take(k + 1).last() == s[k]);
}

/// Once a prefix of the statements is refused by the first walk, all of them are.
pub proof fn lemma_collection_error_persists(t: TableView, trees: Seq<TreeView>, n: int)
    requires
        0 <= n <= trees.len(),
        collection_all(t, trees.take(n)) is Err,
    ensures
        collection_all(t, trees) == collection_all(t, trees.take(n)),
    decreases trees.len(),
{
    if n < trees.len() {
        assert(trees.take(n) =~= trees.drop_last().take(n));
        lemma_collection_error_persists(t, trees.drop_last(), n);
    } else {
        assert(trees.take(n) =~= trees);
    }
}

/// The frame that a statement opens.
fn frame_for(node: &RawAbstractSyntaxNode) -> (frame: Frame)
    ensures
        frame_view(frame) == frame_of(node_view(*node)),
{
    match node {
        RawAbstractSyntaxNode::Class { name } => Frame::Class(name.clone()),
        RawAbstractSyntaxNode::Callable { result_type, .. } => Frame::Callable(copy_type(result_type)),
        RawAbstractSyntaxNode::While { .. } => Frame::Loop,
        RawAbstractSyntaxNode::For { .. } => Frame::Loop,
        _ => Frame::Other,
    }
}

/// The types of a function's parameters.
fn parameter_types(arguments: &Vec<Variable>) -> (types: Vec<Type>)
    ensures
        types@.map_values(|t: Type| type_view(t)) == arguments@.map_values(
            |v: Variable| variable_view(v),
        ).map_values(|p: (TypeView, Seq<char>)| p.0),
{
    let mut types: Vec<Type> = Vec::new();
    let mut k: usize = 0;
    while k < arguments.len()
        invariant
            k <= arguments@.len(),
            types@.len() == k,
            forall|j: int| 0 <= j < k ==> type_view(#[trigger] types@[j]) == type_view(arguments@[j].typ),
        decreases arguments@.len() - k,
    {
        types.push(copy_type(&arguments[k].typ));
        k = k + 1;
    }
    proof {
        assert(types@.map_values(|t: Type| type_view(t)) =~= arguments@.map_values(
            |v: Variable| variable_view(v),
        ).map_values(|p: (TypeView, Seq<char>)| p.0));
    }
    types
}

/// Adds a field or a method to the class at index `i`.
fn update_class(
    classes: &mut Vec<(String, ClassInfo)>,
    i: usize,
    field: Option<(String, Type)>,
    method: Option<(String, FunctionInfo)>,
)
    requires
        i < old(classes)@.len(),
    ensures
        class_views(final(classes)@) == class_views(old(classes)@).update(
            i as int,
            (
                old(classes)@[i as int].0@,
                ClassView {
                    fields: match field {
                        Some(f) => class_view(old(classes)@[i as int].1).fields.push(
                            (f.0@, type_view(f.1)),
                        ),
                        None => class_view(old(classes)@[i as int].1).fields,
                    },
                    methods: match method {
                        Some(m) => class_view(old(classes)@[i as int].1).methods.push(
                            (m.0@, signature_view(m.1)),
                        ),
                        None => class_view(old(classes)@[i as int].1).methods,
                    },
                },
            ),
        ),
{
    let ghost before = classes@;
    let (name, mut info) = classes.remove(i);
    let ghost old_info = info;
    match field {
        Some(f) => {
            info.fields.push(f);
            proof {
                assert(typed_names(info.fields@) =~= typed_names(old_info.fields@).push(
                    (f.0@, type_view(f.1)),
                ));
            }
        },
        None => {},
    }
    let ghost with_field = info;
    match method {
        Some(m) => {
            info.methods.push(m);
            proof {
                assert(signatures(info.methods@) =~= signatures(with_field.methods@).push(
                    (m.0@, signature_view(m.1)),
                ));
            }
        },
        None => {},
    }
    classes.insert(i, (name, info));
    proof {
        assert(classes@ =~= before.update(i as int, (name, info)));
        assert(class_views(classes@) =~= class_views(before).update(
            i as int,
            (name@, class_view(info)),
        ));
    }
}

impl SemanticTable {
    /// The first walk over a statement tree: records its classes, functions and fields.
    fn collect_definitions(&mut self, ast: &RawAbstractSyntaxTree) -> (result: Result<(), SemanticError>)
        ensures
            match (result, collection(old(self)@, tree_view(*ast))) {
                (Ok(_), Ok(t)) => final(self)@ == t,
                (Err(a), Err(b)) => a == b,
                _ => false,
            },
            result is Ok ==> final(self).frames@ == old(self).frames@,
            final(self).scopes@ == old(self).scopes@,
        decreases ast, 1nat,
    {
        let ghost start = self@;
        match &ast.node {
            RawAbstractSyntaxNode::Class { name } => {
                if find_class(&self.classes, name).is_some() {
                    return Err(SemanticError::ClassExists);
                }
                self.classes.push((name.clone(), ClassInfo { fields: Vec::new(), methods: Vec::new() }));
                self.frames.push(Frame::Class(name.clone()));
                proof {
                    assert(typed_names(Seq::<(String, Type)>::empty()) =~= Seq::<(Seq<char>, TypeView)>::empty());
                    assert(signatures(Seq::<(String, FunctionInfo)>::empty()) =~= Seq::<(Seq<char>, (TypeView, Seq<TypeView>))>::empty());
                    assert(self@ =~= TableView {
                        classes: start.classes.push((name@, empty_class())),
                        frames: start.frames.push(FrameView::Class(name@)),
                        ..start
                    });
                }
                let ghost opened = self@;
                match self.collect_children(&ast.children) {
                    Err(e) => {
                        return Err(e);
                    },
                    Ok(_) => {},
                }
                let ghost after = self@;
                self.frames.pop();
                proof {
                    assert(self@ =~= TableView { frames: after.frames.drop_last(), ..after });
                }
                Ok(())
            },
            RawAbstractSyntaxNode::Callable { result_type, name, arguments } => {
                let signature = FunctionInfo {
                    result_type: copy_type(result_type),
                    parameters: parameter_types(arguments),
                };
                match self.current_class_context() {
                    Some(class) => match find_class(&self.classes, &class) {
                        Some(i) => {
                            if find_function(&self.classes[i].1.methods, name).is_some() {
                                return Err(SemanticError::FunctionExists);
                            }
                            let ghost entry = (name@, signature_view(signature));
                            update_class(&mut self.classes, i, None, Some((name.clone(), signature)));
                            proof {
                                assert(self@ =~= TableView {
                                    classes: add_member(start.classes, class@, None, Some(entry)),
                                    ..start
                                });
                            }
                            Ok(())
                        },
                        None => Ok(()),
                    },
                    None => {
                        if find_function(&self.functions, name).is_some() {
                            return Err(SemanticError::FunctionExists);
                        }
                        let ghost entry = (name@, signature_view(signature));
                        self.functions.push((name.clone(), signature));
                        proof {
                            assert(signatures(self.functions@) =~= start.functions.push(entry));
                            assert(self@ =~= TableView { functions: start.functions.push(entry), ..start });
                        }
                        Ok(())
                    },
                }
            },
            RawAbstractSyntaxNode::Declaration { typ, name, .. } => {
                let n = self.frames.len();
                if n > 0 {
                    match &self.frames[n - 1] {
                        Frame::Class(class) => {
                            let class = class.clone();
                            match find_class(&self.classes, &class) {
                                Some(i) => {
                                    let ghost entry = (name@, type_view(*typ));
                                    update_class(&mut self.classes, i, Some((name.clone(), copy_type(typ))), None);
                                    proof {
                                        assert(self@ =~= TableView {
                                            classes: add_member(start.classes, class@, Some(entry), None),
                                            ..start
                                        });
                                    }
                                },
                                None => {},
                            }
                        },
                        _ => {},
                    }
                }
                Ok(())
            },
            RawAbstractSyntaxNode::File | RawAbstractSyntaxNode::Scope => {
                self.frames.push(Frame::Other);
                proof {
                    assert(self@ =~= TableView { frames: start.frames.push(FrameView::Other), ..start });
                }
                match self.collect_children(&ast.children) {
                    Err(e) => {
                        return Err(e);
                    },
                    Ok(_) => {},
                }
                let ghost after = self@;
                self.frames.pop();
                proof {
                    assert(self@ =~= TableView { frames: after.frames.drop_last(), ..after });
                }
                Ok(())
            },
            _ => Ok(()),
        }
    }

    /// The first walk over a sequence of statement trees, in order.
    fn collect_children(&mut self, children: &Vec<RawAbstractSyntaxTree>) -> (result: Result<
        (),
        SemanticError,
    >)
        ensures
            match (result, collection_all(old(self)@, trees_view(children@))) {
                (Ok(_), Ok(t)) => final(self)@ == t,
                (Err(a), Err(b)) => a == b,
                _ => false,
            },
            result is Ok ==> final(self).frames@ == old(self).frames@,
            final(self).scopes@ == old(self).scopes@,
        decreases children, 0nat,
    {
        let ghost start = self@;
        let ghost start_frames = self.frames@;
        let mut k: usize = 0;
        proof {
            assert(children@.take(0) =~= Seq::<RawAbstractSyntaxTree>::empty());
        }
        while k < children.len()
            invariant
                k <= children@.len(),
                start == old(self)@,
                start_frames == old(self).frames@,
                self.frames@ == start_frames,
                self.scopes@ == old(self).scopes@,
                collection_all(start, trees_view(children@.take(k as int))) == Ok::<
                    TableView,
                    SemanticError,
                >(self@),
            decreases children@.len() - k,
        {
            proof {
                lemma_trees_view_step(children@, k as int);
                assert(trees_view(children@.take(k + 1)).drop_last() =~= trees_view(children@.take(k as int)));
            }
            let ghost before = self@;
            match self.collect_definitions(&children[k]) {
                Err(e) => {
                    proof {
                        assert(trees_view(children@.take(k + 1)).last() == tree_view(children@[k as int]));
                        assert(collection_all(start, trees_view(children@.take(k + 1))) == collection(before, tree_view(children@[k as int])));
                        lemma_trees_view_prefix(children@, k + 1);
                        lemma_trees_view_len(children@);
                        lemma_collection_error_persists(start, trees_view(children@), k + 1);
                        assert(collection_all(start, trees_view(children@)) == Err::<TableView, SemanticError>(e));
                    }
                    return Err(e);
                },
                Ok(_) => {},
            }
            k = k + 1;
        }
        proof {
            assert(children@.take(k as int) =~= children@);
        }
        Ok(())
    }
}

/// Once an `else` is found in a prefix of statements, it is the first in all of them.
pub proof fn lemma_first_else_prefix(s: Seq<TreeView>, n: int)
    requires
        0 <= n <= s.len(),
        first_else(s.take(n)) >= 0,
    ensures
        first_else(s) == first_else(s.take(n)),
    decreases s.len(),
{
    if n < s.len() {
        assert(s.take(n) =~= s.drop_last().take(n));
        lemma_first_else_prefix(s.drop_last(), n);
    } else {
        assert(s.take(n) =~= s);
    }
}

/// The index of the first `else` among statement trees.
fn first_else_index(children: &Vec<RawAbstractSyntaxTree>) -> (index: Option<usize>)
    ensures
        match index {
            Some(i) => i < children@.len() && first_else(trees_view(children@)) == i,
            None => first_else(trees_view(children@)) == -1,
        },
{
    let mut k: usize = 0;
    proof {
        lemma_trees_view_len(children@);
        assert(trees_view(children@).take(0) =~= Seq::<TreeView>::empty());
    }
    while k < children.len()
        invariant
            k <= children@.len(),
            trees_view(children@).len() == children@.len(),
            first_else(trees_view(children@).take(k as int)) == -1,
        decreases children@.len() - k,
    {
        proof {
            lemma_trees_view_index(children@, k as int);
            assert(trees_view(children@).take(k + 1).drop_last() =~= trees_view(children@).take(k as int));
            assert(trees_view(children@).take(k + 1).last() == tree_view(children@[k as int]));
        }
        match children[k].node {
            RawAbstractSyntaxNode::Else => {
                proof {
                    lemma_first_else_prefix(trees_view(children@), k + 1);
                }
                return Some(k);
            },
            _ => {},
        }
        k = k + 1;
    }
    proof {
        assert(trees_view(children@).take(k as int) =~= trees_view(children@));
    }
    None
}

/// Whether every path through a statement ends in `return`.
fn node_guarantees_return(tree: &RawAbstractSyntaxTree) -> (guaranteed: bool)
    ensures
        guaranteed == guarantees_return(tree_view(*tree)),
    decreases tree, 2nat,
{
    match &tree.node {
        RawAbstractSyntaxNode::Return { .. } => true,
        RawAbstractSyntaxNode::If { .. } => if_guarantees(&tree.children),
        RawAbstractSyntaxNode::Scope => any_guarantees(&tree.children, false),
        RawAbstractSyntaxNode::While { .. } => any_guarantees(&tree.children, false),
        RawAbstractSyntaxNode::Callable { .. } => any_guarantees(&tree.children, false),
        _ => false,
    }
}

/// Whether some statement, other than an `else` when `skip_else` holds, guarantees a return.
fn any_guarantees(children: &Vec<RawAbstractSyntaxTree>, skip_else: bool) -> (guaranteed: bool)
    ensures
        guaranteed == any_guarantees_return(trees_view(children@), skip_else),
    decreases children, 0nat,
{
    let mut found = false;
    let mut k: usize = 0;
    proof {
        lemma_trees_view_len(children@);
        assert(trees_view(children@).take(0) =~= Seq::<TreeView>::empty());
    }
    while k < children.len()
        invariant
            k <= children@.len(),
            trees_view(children@).len() == children@.len(),
            found == any_guarantees_return(trees_view(children@).take(k as int), skip_else),
        decreases children@.len() - k,
    {
        proof {
            lemma_trees_view_index(children@, k as int);
            assert(trees_view(children@).take(k + 1).drop_last() =~= trees_view(children@).take(k as int));
            assert(trees_view(children@).take(k + 1).last() == tree_view(children@[k as int]));
        }
        let is_else = match children[k].node {
            RawAbstractSyntaxNode::Else => true,
            _ => false,
        };
        let here = !(skip_else && is_else) && node_guarantees_return(&children[k]);
        found = found || here;
        k = k + 1;
    }
    proof {
        assert(trees_view(children@).take(k as int) =~= trees_view(children@));
    }
    found
}

/// Whether an `if` with these statements guarantees a return.
fn if_guarantees(children: &Vec<RawAbstractSyntaxTree>) -> (guaranteed: bool)
    ensures
        guaranteed == if_guarantees_return(trees_view(children@)),
    decreases children, 1nat,
{
    match first_else_index(children) {
        None => false,
        Some(i) => {
            proof {
                lemma_trees_view_index(children@, i as int);
            }
            any_guarantees(children, true) && else_guarantees(&children[i].children)
        },
    }
}

/// Whether the statements of an `else` guarantee a return.
fn else_guarantees(children: &Vec<RawAbstractSyntaxTree>) -> (guaranteed: bool)
    ensures
        guaranteed == else_guarantees_return(trees_view(children@)),
    decreases children, 1nat,
{
    match first_else_index(children) {
        None => any_guarantees(children, false),
        Some(i) => {
            proof {
                lemma_trees_view_index(children@, i as int);
            }
            else_guarantees(&children[i].children)
        },
    }
}

/// A copy of a list of variables.
fn copy_variables(variables: &Vec<Variable>) -> (copy: Vec<Variable>)
    ensures
        copy@.map_values(|v: Variable| variable_view(v)) == variables@.map_values(
            |v: Variable| variable_view(v),
        ),
{
    let mut copy: Vec<Variable> = Vec::new();
    let mut k: usize = 0;
    while k < variables.len()
        invariant
            k <= variables@.len(),
            copy@.len() == k,
            forall|j: int| 0 <= j < k ==> variable_view(#[trigger] copy@[j]) == variable_view(variables@[j]),
        decreases variables@.len() - k,
    {
        copy.push(Variable { name: variables[k].name.clone(), typ: copy_type(&variables[k].typ) });
        k = k + 1;
    }
    proof {
        assert(copy@.map_values(|v: Variable| variable_view(v)) =~= variables@.map_values(
            |v: Variable| variable_view(v),
        ));
    }
    copy
}

/// The types of an optional typed expression.
pub open spec fn optional_types(e: Option<Expression<Type>>) -> Option<TypeTree> {
    match e {
        Some(x) => Some(types_of(x)),
        None => None,
    }
}

impl SemanticTable {
    /// The typed form of an optional expression.
    fn analyze_optional(&self, e: &Option<Expression<()>>) -> (typed: Result<
        Option<Expression<Type>>,
        SemanticError,
    >)
        ensures
            match (typed, optional_typing(self.environment(), optional_shape(*e))) {
                (Ok(x), Ok(t)) => optional_types(x) == t && optional_typed_view(x) == paired(
                    optional_shape(*e),
                    t,
                ),
                (Err(a), Err(b)) => a == b,
                _ => false,
            },
    {
        match e {
            None => Ok(None),
            Some(x) => match self.analyze_expression(x) {
                Ok(t) => Ok(Some(t)),
                Err(error) => Err(error),
            },
        }
    }

    /// Checks a declaration and declares its variable in the innermost scope.
    fn analyze_declaration(&mut self, typ: &Type, name: &String, value: &Option<Expression<Type>>) -> (result:
        Result<(), SemanticError>)
        requires
            old(self).scopes@.len() > 0,
        ensures
            match (result, declaration_checks(old(self)@, type_view(*typ), name@, optional_types(*value))) {
                (Ok(_), Ok(t)) => final(self)@ == t,
                (Err(a), Err(b)) => a == b,
                _ => false,
            },
            final(self).scopes@.len() == old(self).scopes@.len(),
            final(self).frames@ == old(self).frames@,
    {
        match typ {
            Type::Class(class) => {
                if find_class(&self.classes, class).is_none() {
                    return Err(SemanticError::UnknownType);
                }
            },
            _ => {},
        }
        match value {
            Some(v) => {
                if !same_type(&type_of(v), typ) {
                    return Err(SemanticError::DeclarationTypeMismatch);
                }
            },
            None => {},
        }
        let ghost start = self@;
        let mut scope = self.scopes.pop().unwrap();
        let ghost old_scope = scope@;
        scope.push((name.clone(), copy_type(typ)));
        proof {
            assert(typed_names(scope@) =~= typed_names(old_scope).push((name@, type_view(*typ))));
        }
        self.scopes.push(scope);
        proof {
            assert(self@.scopes =~= start.scopes.drop_last().push(start.scopes.last().push((name@, type_view(*typ)))));
            assert(self@ =~= declare(start, name@, type_view(*typ)));
        }
        Ok(())
    }

    /// The result type of the innermost enclosing function.
    fn function_result_type(&self) -> (typ: Option<Type>)
        ensures
            match typ {
                Some(t) => function_result(self@.frames) == Some(type_view(t)),
                None => function_result(self@.frames) is None,
            },
    {
        let ghost frames = self@.frames;
        let mut k = self.frames.len();
        proof {
            assert(frames.take(k as int) =~= frames);
        }
        while k > 0
            invariant
                k <= self.frames@.len(),
                frames == self@.frames,
                frames.len() == self.frames@.len(),
                function_result(frames) == function_result(frames.take(k as int)),
            decreases k,
        {
            proof {
                assert(frames.take(k as int).drop_last() =~= frames.take(k - 1));
                assert(frames.take(k as int).last() == frame_view(self.frames@[k - 1]));
            }
            match &self.frames[k - 1] {
                Frame::Callable(typ) => {
                    return Some(copy_type(typ));
                },
                _ => {},
            }
            k = k - 1;
        }
        None
    }

    /// Whether some enclosing statement is a loop.
    fn in_loop(&self) -> (inside: bool)
        ensures
            inside == inside_loop(self@.frames),
    {
        let mut k: usize = 0;
        while k < self.frames.len()
            invariant
                k <= self.frames@.len(),
                self@.frames.len() == self.frames@.len(),
                forall|j: int| 0 <= j < k ==> self@.frames[j] != FrameView::Loop,
            decreases self.frames@.len() - k,
        {
            proof {
                assert(self@.frames[k as int] == frame_view(self.frames@[k as int]));
            }
            match &self.frames[k] {
                Frame::Loop => {
                    return true;
                },
                _ => {},
            }
            k = k + 1;
        }
        false
    }
}

/// Once a prefix of a body is refused, the whole body is refused with that error.
pub proof fn lemma_body_error_persists(t: TableView, trees: Seq<TreeView>, n: int)
    requires
        0 <= n <= trees.len(),
        body_analysis(t, trees.take(n)) is Err,
    ensures
        body_analysis(t, trees) == body_analysis(t, trees.take(n)),
    decreases trees.len(),
{
    if n < trees.len() {
        assert(trees.take(n) =~= trees.drop_last().take(n));
        lemma_body_error_persists(t, trees.drop_last(), n);
    } else {
        assert(trees.take(n) =~= trees);
    }
}

/// Once a prefix of a class body is refused by the first pass, the whole body is.
pub proof fn lemma_fields_error_persists(t: TableView, trees: Seq<TreeView>, n: int)
    requires
        0 <= n <= trees.len(),
        class_fields(t, trees.take(n)) is Err,
    ensures
        class_fields(t, trees) == class_fields(t, trees.take(n)),
    decreases trees.len(),
{
    if n < trees.len() {
        assert(trees.take(n) =~= trees.drop_last().take(n));
        lemma_fields_error_persists(t, trees.drop_last(), n);
    } else {
        assert(trees.take(n) =~= trees);
    }
}

/// Once a prefix of a class body is refused by the second pass, the whole body is.
pub proof fn lemma_members_error_persists(t: TableView, trees: Seq<TreeView>, n: int)
    requires
        0 <= n <= trees.len(),
        class_members(t, trees.take(n)) is Err,
    ensures
        class_members(t, trees) == class_members(t, trees.take(n)),
    decreases trees.len(),
{
    if n < trees.len() {
        assert(trees.take(n) =~= trees.drop_last().take(n));
        lemma_members_error_persists(t, trees.drop_last(), n);
    } else {
        assert(trees.take(n) =~= trees);
    }
}

/// The view of typed trees with one more pushed.
pub proof fn lemma_typed_trees_view_push(trees: Seq<TypedAbstractSyntaxTree>, tree: TypedAbstractSyntaxTree)
    ensures
        typed_trees_view(trees.push(tree)) == typed_trees_view(trees).push(typed_tree_view(tree)),
{
    assert(trees.push(tree).drop_last() =~= trees);
}

/// The scope of a function's parameters.
fn parameter_entries(arguments: &Vec<Variable>) -> (scope: Vec<(String, Type)>)
    ensures
        typed_names(scope@) == parameter_scope(arguments@.map_values(|v: Variable| variable_view(v))),
{
    let mut scope: Vec<(String, Type)> = Vec::new();
    let mut k: usize = 0;
    while k < arguments.len()
        invariant
            k <= arguments@.len(),
            scope@.len() == k,
            forall|j: int| 0 <= j < k ==> #[trigger] scope@[j].0@ == arguments@[j].name@
                && type_view(scope@[j].1) == type_view(arguments@[j].typ),
        decreases arguments@.len() - k,
    {
        scope.push((arguments[k].name.clone(), copy_type(&arguments[k].typ)));
        k = k + 1;
    }
    proof {
        assert(typed_names(scope@) =~= parameter_scope(arguments@.map_values(|v: Variable| variable_view(v))));
    }
    scope
}

impl SemanticTable {
    /// The typed tree of a statement tree: the statement's frame is opened, the statement
    /// checked and typed, and the frame closed again.
    pub fn analyze(&mut self, ast: &RawAbstractSyntaxTree) -> (typed: Result<
        TypedAbstractSyntaxTree,
        SemanticError,
    >)
        requires
            old(self).scopes@.len() > 0,
        ensures
            match (typed, analysis(old(self)@, tree_view(*ast))) {
                (Ok(x), Ok((v, t))) => typed_tree_view(x) == v && final(self)@ == t,
                (Err(a), Err(b)) => a == b,
                _ => false,
            },
            typed is Ok ==> final(self).scopes@.len() == old(self).scopes@.len() && final(self).frames@ == old(self).frames@,
        decreases ast, 2nat,
    {
        let ghost start = self@;
        let ghost start_frames = self.frames@;
        let frame = frame_for(&ast.node);
        self.frames.push(frame);
        proof {
            assert(self@ =~= TableView {
                frames: start.frames.push(frame_of(tree_view(*ast).node)),
                ..start
            });
        }
        match self.analyze_statement(ast) {
            Err(e) => Err(e),
            Ok(x) => {
                let ghost after = self@;
                self.frames.pop();
                proof {
                    assert(self@ =~= TableView { frames: after.frames.drop_last(), ..after });
                    assert(self.frames@ =~= start_frames);
                }
                Ok(x)
            },
        }
    }

    /// The typed trees of a body, in order.
    fn analyze_children(&mut self, children: &Vec<RawAbstractSyntaxTree>) -> (typed: Result<
        Vec<TypedAbstractSyntaxTree>,
        SemanticError,
    >)
        requires
            old(self).scopes@.len() > 0,
        ensures
            match (typed, body_analysis(old(self)@, trees_view(children@))) {
                (Ok(v), Ok((kids, t))) => typed_trees_view(v@) == kids && final(self)@ == t,
                (Err(a), Err(b)) => a == b,
                _ => false,
            },
            typed is Ok ==> final(self).scopes@.len() == old(self).scopes@.len() && final(self).frames@ == old(self).frames@,
        decreases children, 0nat,
    {
        let ghost start = self@;
        let ghost start_scopes = self.scopes@.len();
        let ghost start_frames = self.frames@;
        let mut typed: Vec<TypedAbstractSyntaxTree> = Vec::new();
        let mut k: usize = 0;
        proof {
            assert(children@.take(0) =~= Seq::<RawAbstractSyntaxTree>::empty());
            assert(typed_trees_view(typed@) =~= Seq::<TypedTreeView>::empty());
        }
        while k < children.len()
            invariant
                k <= children@.len(),
                start == old(self)@,
                start_scopes == old(self).scopes@.len(),
                start_frames == old(self).frames@,
                self.scopes@.len() == start_scopes,
                start_scopes > 0,
                self.frames@ == start_frames,
                body_analysis(start, trees_view(children@.take(k as int))) == Ok::<
                    (Seq<TypedTreeView>, TableView),
                    SemanticError,
                >((typed_trees_view(typed@), self@)),
            decreases children@.len() - k,
        {
            proof {
                lemma_trees_view_step(children@, k as int);
                assert(trees_view(children@.take(k + 1)).drop_last() =~= trees_view(children@.take(k as int)));
                assert(trees_view(children@.take(k + 1)).last() == tree_view(children@[k as int]));
            }
            let ghost before = self@;
            match self.analyze(&children[k]) {
                Err(e) => {
                    proof {
                        assert(body_analysis(start, trees_view(children@.take(k + 1))) == Err::<
                            (Seq<TypedTreeView>, TableView),
                            SemanticError,
                        >(e));
                        lemma_trees_view_prefix(children@, k + 1);
                        lemma_trees_view_len(children@);
                        lemma_body_error_persists(start, trees_view(children@), k + 1);
                    }
                    return Err(e);
                },
                Ok(tree) => {
                    proof {
                        lemma_typed_trees_view_push(typed@, tree);
                    }
                    typed.push(tree);
                },
            }
            k = k + 1;
        }
        proof {
            assert(children@.take(k as int) =~= children@);
        }
        Ok(typed)
    }

    /// The typed trees of a body analysed in a scope of its own, which starts as `scope`.
    fn analyze_scoped(&mut self, children: &Vec<RawAbstractSyntaxTree>, scope: Vec<(String, Type)>) -> (typed:
        Result<Vec<TypedAbstractSyntaxTree>, SemanticError>)
        requires
            old(self).scopes@.len() > 0,
        ensures
            match (typed, body_analysis(with_scope(old(self)@, typed_names(scope@)), trees_view(children@))) {
                (Ok(v), Ok((kids, after))) => typed_trees_view(v@) == kids && final(self)@
                    == without_scope(after),
                (Err(a), Err(b)) => a == b,
                _ => false,
            },
            typed is Ok ==> final(self).scopes@.len() == old(self).scopes@.len() && final(self).frames@ == old(self).frames@,
        decreases children, 1nat,
    {
        let ghost start = self@;
        let ghost names = typed_names(scope@);
        self.scopes.push(scope);
        proof {
            assert(self@ =~= with_scope(start, names));
        }
        match self.analyze_children(children) {
            Err(e) => Err(e),
            Ok(typed) => {
                let ghost after = self@;
                self.scopes.pop();
                proof {
                    assert(self@ =~= without_scope(after));
                }
                Ok(typed)
            },
        }
    }

    /// The first pass over a class body: its field declarations, in order.
    fn analyze_class_fields(&mut self, children: &Vec<RawAbstractSyntaxTree>) -> (result: Result<
        (),
        SemanticError,
    >)
        requires
            old(self).scopes@.len() > 0,
        ensures
            match (result, class_fields(old(self)@, trees_view(children@))) {
                (Ok(_), Ok(t)) => final(self)@ == t,
                (Err(a), Err(b)) => a == b,
                _ => false,
            },
            result is Ok ==> final(self).scopes@.len() == old(self).scopes@.len() && final(self).frames@ == old(self).frames@,
    {
        let ghost start = self@;
        let ghost start_scopes = self.scopes@.len();
        let ghost start_frames = self.frames@;
        let mut k: usize = 0;
        proof {
            assert(children@.take(0) =~= Seq::<RawAbstractSyntaxTree>::empty());
        }
        while k < children.len()
            invariant
                k <= children@.len(),
                start == old(self)@,
                start_scopes == old(self).scopes@.len(),
                start_frames == old(self).frames@,
                self.scopes@.len() == start_scopes,
                start_scopes > 0,
                self.frames@ == start_frames,
                class_fields(start, trees_view(children@.take(k as int))) == Ok::<
                    TableView,
                    SemanticError,
                >(self@),
            decreases children@.len() - k,
        {
            proof {
                lemma_trees_view_step(children@, k as int);
                assert(trees_view(children@.take(k + 1)).drop_last() =~= trees_view(children@.take(k as int)));
                assert(trees_view(children@.take(k + 1)).last() == tree_view(children@[k as int]));
                lemma_trees_view_prefix(children@, k + 1);
                lemma_trees_view_len(children@);
            }
            match &children[k].node {
                RawAbstractSyntaxNode::Declaration { typ, name, expression } => {
                    let typed = match self.analyze_optional(expression) {
                        Ok(typed) => typed,
                        Err(e) => {
                            proof {
                                lemma_fields_error_persists(start, trees_view(children@), k + 1);
                            }
                            return Err(e);
                        },
                    };
                    match self.analyze_declaration(typ, name, &typed) {
                        Ok(_) => {},
                        Err(e) => {
                            proof {
                                lemma_fields_error_persists(start, trees_view(children@), k + 1);
                            }
                            return Err(e);
                        },
                    }
                },
                _ => {},
            }
            k = k + 1;
        }
        proof {
            assert(children@.take(k as int) =~= children@);
        }
        Ok(())
    }

    /// The second pass over a class body: the fields typed anew, the other members analysed.
    fn analyze_class_members(&mut self, children: &Vec<RawAbstractSyntaxTree>) -> (typed: Result<
        Vec<TypedAbstractSyntaxTree>,
        SemanticError,
    >)
        requires
            old(self).scopes@.len() > 0,
        ensures
            match (typed, class_members(old(self)@, trees_view(children@))) {
                (Ok(v), Ok((kids, t))) => typed_trees_view(v@) == kids && final(self)@ == t,
                (Err(a), Err(b)) => a == b,
                _ => false,
            },
            typed is Ok ==> final(self).scopes@.len() == old(self).scopes@.len() && final(self).frames@ == old(self).frames@,
        decreases children, 0nat,
    {
        let ghost start = self@;
        let ghost start_scopes = self.scopes@.len();
        let ghost start_frames = self.frames@;
        let mut typed: Vec<TypedAbstractSyntaxTree> = Vec::new();
        let mut k: usize = 0;
        proof {
            assert(children@.take(0) =~= Seq::<RawAbstractSyntaxTree>::empty());
            assert(typed_trees_view(typed@) =~= Seq::<TypedTreeView>::empty());
        }
        while k < children.len()
            invariant
                k <= children@.len(),
                start == old(self)@,
                start_scopes == old(self).scopes@.len(),
                start_frames == old(self).frames@,
                self.scopes@.len() == start_scopes,
                start_scopes > 0,
                self.frames@ == start_frames,
                class_members(start, trees_view(children@.take(k as int))) == Ok::<
                    (Seq<TypedTreeView>, TableView),
                    SemanticError,
                >((typed_trees_view(typed@), self@)),
            decreases children@.len() - k,
        {
            proof {
                lemma_trees_view_step(children@, k as int);
                assert(trees_view(children@.take(k + 1)).drop_last() =~= trees_view(children@.take(k as int)));
                assert(trees_view(children@.take(k + 1)).last() == tree_view(children@[k as int]));
                lemma_trees_view_prefix(children@, k + 1);
                lemma_trees_view_len(children@);
            }
            let ghost before = self@;
            let tree = match &children[k].node {
                RawAbstractSyntaxNode::Declaration { typ, name, expression } => {
                    match self.analyze_optional(expression) {
                        Ok(value) => TypedAbstractSyntaxTree::new(
                            TypedAbstractSyntaxNode::Declaration {
                                typ: copy_type(typ),
                                name: name.clone(),
                                expression: value,
                            },
                        ),
                        Err(e) => {
                            proof {
                                lemma_members_error_persists(start, trees_view(children@), k + 1);
                            }
                            return Err(e);
                        },
                    }
                },
                _ => match self.analyze(&children[k]) {
                    Ok(tree) => tree,
                    Err(e) => {
                        proof {
                            lemma_members_error_persists(start, trees_view(children@), k + 1);
                        }
                        return Err(e);
                    },
                },
            };
            proof {
                lemma_typed_trees_view_push(typed@, tree);
                assert(tree.children@ =~= Seq::<TypedAbstractSyntaxTree>::empty() ==> typed_trees_view(
                    tree.children@,
                ) =~= Seq::<TypedTreeView>::empty());
            }
            typed.push(tree);
            k = k + 1;
        }
        proof {
            assert(children@.take(k as int) =~= children@);
        }
        Ok(typed)
    }
}

impl SemanticTable {
    /// The check of one statement, whose own frame is already open.
    fn analyze_statement(&mut self, ast: &RawAbstractSyntaxTree) -> (typed: Result<
        TypedAbstractSyntaxTree,
        SemanticError,
    >)
        requires
            old(self).scopes@.len() > 0,
        ensures
            match (typed, statement_analysis(old(self)@, tree_view(*ast))) {
                (Ok(x), Ok((v, t))) => typed_tree_view(x) == v && final(self)@ == t,
                (Err(a), Err(b)) => a == b,
                _ => false,
            },
            typed is Ok ==> final(self).scopes@.len() == old(self).scopes@.len() && final(self).frames@
                == old(self).frames@,
        decreases ast, 1nat,
    {
        match &ast.node {
            RawAbstractSyntaxNode::If { .. } => self.analyze_conditional(ast),
            RawAbstractSyntaxNode::While { .. } => self.analyze_conditional(ast),
            RawAbstractSyntaxNode::Callable { .. } => self.analyze_callable(ast),
            RawAbstractSyntaxNode::Class { .. } => self.analyze_class(ast),
            RawAbstractSyntaxNode::File => self.analyze_block(ast),
            RawAbstractSyntaxNode::Scope => self.analyze_block(ast),
            RawAbstractSyntaxNode::Else => self.analyze_block(ast),
            _ => self.analyze_simple(ast),
        }
    }

    /// The check of an `if` or a `while`.
    fn analyze_conditional(&mut self, ast: &RawAbstractSyntaxTree) -> (typed: Result<
        TypedAbstractSyntaxTree,
        SemanticError,
    >)
        requires
            old(self).scopes@.len() > 0,
            ast.node is If || ast.node is While,
        ensures
            match (typed, statement_analysis(old(self)@, tree_view(*ast))) {
                (Ok(x), Ok((v, t))) => typed_tree_view(x) == v && final(self)@ == t,
                (Err(a), Err(b)) => a == b,
                _ => false,
            },
            typed is Ok ==> final(self).scopes@.len() == old(self).scopes@.len() && final(self).frames@
                == old(self).frames@,
        decreases ast, 0nat,
    {
        let ghost start = self@;
        proof {
            assert(typed_names(Seq::<(String, Type)>::empty()) =~= Seq::<(Seq<char>, TypeView)>::empty());
            assert(typed_trees_view(Seq::<TypedAbstractSyntaxTree>::empty()) =~= Seq::<TypedTreeView>::empty());
        }
        match &ast.node {
            RawAbstractSyntaxNode::If { condition } => {
                let c = match self.analyze_expression(condition) {
                    Ok(c) => c,
                    Err(e) => {
                        return Err(e);
                    },
                };
                if !is_bool_type(&type_of(&c)) {
                    return Err(SemanticError::ConditionNotBool);
                }
                match self.analyze_scoped(&ast.children, Vec::new()) {
                    Ok(children) => Ok(
                        TypedAbstractSyntaxTree::with_children(
                            TypedAbstractSyntaxNode::If { condition: c },
                            children,
                        ),
                    ),
                    Err(e) => Err(e),
                }
            },
            RawAbstractSyntaxNode::While { condition } => {
                let c = match self.analyze_expression(condition) {
                    Ok(c) => c,
                    Err(e) => {
                        return Err(e);
                    },
                };
                if !is_bool_type(&type_of(&c)) {
                    return Err(SemanticError::ConditionNotBool);
                }
                match self.analyze_scoped(&ast.children, Vec::new()) {
                    Ok(children) => Ok(
                        TypedAbstractSyntaxTree::with_children(
                            TypedAbstractSyntaxNode::While { condition: c },
                            children,
                        ),
                    ),
                    Err(e) => Err(e),
                }
            },
            _ => Err(SemanticError::UnsupportedStatement),
        }
    }

    /// The check of a function.
    fn analyze_callable(&mut self, ast: &RawAbstractSyntaxTree) -> (typed: Result<
        TypedAbstractSyntaxTree,
        SemanticError,
    >)
        requires
            old(self).scopes@.len() > 0,
            ast.node is Callable,
        ensures
            match (typed, statement_analysis(old(self)@, tree_view(*ast))) {
                (Ok(x), Ok((v, t))) => typed_tree_view(x) == v && final(self)@ == t,
                (Err(a), Err(b)) => a == b,
                _ => false,
            },
            typed is Ok ==> final(self).scopes@.len() == old(self).scopes@.len() && final(self).frames@
                == old(self).frames@,
        decreases ast, 0nat,
    {
        let ghost start = self@;
        proof {
            assert(typed_names(Seq::<(String, Type)>::empty()) =~= Seq::<(Seq<char>, TypeView)>::empty());
            assert(typed_trees_view(Seq::<TypedAbstractSyntaxTree>::empty()) =~= Seq::<TypedTreeView>::empty());
        }
        match &ast.node {
            RawAbstractSyntaxNode::Callable { result_type, name, arguments } => {
                let scope = parameter_entries(arguments);
                let children = match self.analyze_scoped(&ast.children, scope) {
                    Ok(children) => children,
                    Err(e) => {
                        return Err(e);
                    },
                };
                if !node_guarantees_return(ast) {
                    return Err(SemanticError::MissingReturn);
                }
                Ok(
                    TypedAbstractSyntaxTree::with_children(
                        TypedAbstractSyntaxNode::Callable {
                            result_type: copy_type(result_type),
                            name: name.clone(),
                            arguments: copy_variables(arguments),
                        },
                        children,
                    ),
                )
            },
            _ => Err(SemanticError::UnsupportedStatement),
        }
    }

    /// The check of a class: its fields first, then its members.
    fn analyze_class(&mut self, ast: &RawAbstractSyntaxTree) -> (typed: Result<
        TypedAbstractSyntaxTree,
        SemanticError,
    >)
        requires
            old(self).scopes@.len() > 0,
            ast.node is Class,
        ensures
            match (typed, statement_analysis(old(self)@, tree_view(*ast))) {
                (Ok(x), Ok((v, t))) => typed_tree_view(x) == v && final(self)@ == t,
                (Err(a), Err(b)) => a == b,
                _ => false,
            },
            typed is Ok ==> final(self).scopes@.len() == old(self).scopes@.len() && final(self).frames@
                == old(self).frames@,
        decreases ast, 0nat,
    {
        let ghost start = self@;
        proof {
            assert(typed_names(Seq::<(String, Type)>::empty()) =~= Seq::<(Seq<char>, TypeView)>::empty());
            assert(typed_trees_view(Seq::<TypedAbstractSyntaxTree>::empty()) =~= Seq::<TypedTreeView>::empty());
        }
        match &ast.node {
            RawAbstractSyntaxNode::Class { name } => {
                self.scopes.push(Vec::new());
                proof {
                    assert(self@ =~= with_scope(start, Seq::empty()));
                }
                match self.analyze_class_fields(&ast.children) {
                    Ok(_) => {},
                    Err(e) => {
                        return Err(e);
                    },
                }
                let children = match self.analyze_class_members(&ast.children) {
                    Ok(children) => children,
                    Err(e) => {
                        return Err(e);
                    },
                };
                let ghost after = self@;
                self.scopes.pop();
                proof {
                    assert(self@ =~= without_scope(after));
                }
                Ok(
                    TypedAbstractSyntaxTree::with_children(
                        TypedAbstractSyntaxNode::Class { name: name.clone() },
                        children,
                    ),
                )
            },
            _ => Err(SemanticError::UnsupportedStatement),
        }
    }

    /// The check of a file, a scope or an `else`.
    fn analyze_block(&mut self, ast: &RawAbstractSyntaxTree) -> (typed: Result<
        TypedAbstractSyntaxTree,
        SemanticError,
    >)
        requires
            old(self).scopes@.len() > 0,
            ast.node is File || ast.node is Scope || ast.node is Else,
        ensures
            match (typed, statement_analysis(old(self)@, tree_view(*ast))) {
                (Ok(x), Ok((v, t))) => typed_tree_view(x) == v && final(self)@ == t,
                (Err(a), Err(b)) => a == b,
                _ => false,
            },
            typed is Ok ==> final(self).scopes@.len() == old(self).scopes@.len() && final(self).frames@
                == old(self).frames@,
        decreases ast, 0nat,
    {
        let ghost start = self@;
        proof {
            assert(typed_names(Seq::<(String, Type)>::empty()) =~= Seq::<(Seq<char>, TypeView)>::empty());
            assert(typed_trees_view(Seq::<TypedAbstractSyntaxTree>::empty()) =~= Seq::<TypedTreeView>::empty());
        }
        match &ast.node {
            RawAbstractSyntaxNode::File => match self.analyze_scoped(&ast.children, Vec::new()) {
                Ok(children) => Ok(
                    TypedAbstractSyntaxTree::with_children(TypedAbstractSyntaxNode::File, children),
                ),
                Err(e) => Err(e),
            },
            RawAbstractSyntaxNode::Scope => match self.analyze_scoped(&ast.children, Vec::new()) {
                Ok(children) => Ok(
                    TypedAbstractSyntaxTree::with_children(TypedAbstractSyntaxNode::Scope, children),
                ),
                Err(e) => Err(e),
            },
            RawAbstractSyntaxNode::Else => match self.analyze_scoped(&ast.children, Vec::new()) {
                Ok(children) => Ok(
                    TypedAbstractSyntaxTree::with_children(TypedAbstractSyntaxNode::Else, children),
                ),
                Err(e) => Err(e),
            },
            _ => Err(SemanticError::UnsupportedStatement),
        }
    }

    /// The check of a statement without a body of its own.
    fn analyze_simple(&mut self, ast: &RawAbstractSyntaxTree) -> (typed: Result<
        TypedAbstractSyntaxTree,
        SemanticError,
    >)
        requires
            old(self).scopes@.len() > 0,
            !(ast.node is If || ast.node is While || ast.node is Callable || ast.node is Class || ast.node is File || ast.node is Scope || ast.node is Else),
        ensures
            match (typed, statement_analysis(old(self)@, tree_view(*ast))) {
                (Ok(x), Ok((v, t))) => typed_tree_view(x) == v && final(self)@ == t,
                (Err(a), Err(b)) => a == b,
                _ => false,
            },
            typed is Ok ==> final(self).scopes@.len() == old(self).scopes@.len() && final(self).frames@
                == old(self).frames@,
    {
        let ghost start = self@;
        proof {
            assert(typed_names(Seq::<(String, Type)>::empty()) =~= Seq::<(Seq<char>, TypeView)>::empty());
            assert(typed_trees_view(Seq::<TypedAbstractSyntaxTree>::empty()) =~= Seq::<TypedTreeView>::empty());
        }
        match &ast.node {
            RawAbstractSyntaxNode::Expression { expression } => match self.analyze_expression(
                expression,
            ) {
                Ok(e) => Ok(
                    TypedAbstractSyntaxTree::new(TypedAbstractSyntaxNode::Expression { expression: e }),
                ),
                Err(e) => Err(e),
            },
            RawAbstractSyntaxNode::Declaration { typ, name, expression } => {
                let value = match self.analyze_optional(expression) {
                    Ok(value) => value,
                    Err(e) => {
                        return Err(e);
                    },
                };
                let n = self.frames.len();
                let parent_is_class = n >= 2 && match &self.frames[n - 2] {
                    Frame::Class(_) => true,
                    _ => false,
                };
                proof {
                    if n >= 2 {
                        assert(self@.frames[n - 2] == frame_view(self.frames@[n - 2]));
                    }
                }
                if !parent_is_class {
                    match self.analyze_declaration(typ, name, &value) {
                        Ok(_) => {},
                        Err(e) => {
                            return Err(e);
                        },
                    }
                }
                Ok(
                    TypedAbstractSyntaxTree::new(
                        TypedAbstractSyntaxNode::Declaration {
                            typ: copy_type(typ),
                            name: name.clone(),
                            expression: value,
                        },
                    ),
                )
            },
            RawAbstractSyntaxNode::Return { value } => {
                let result_type = match self.function_result_type() {
                    Some(t) => t,
                    None => {
                        return Err(SemanticError::ReturnOutsideFunction);
                    },
                };
                let typed_value = match self.analyze_optional(value) {
                    Ok(v) => v,
                    Err(e) => {
                        return Err(e);
                    },
                };
                let returned = match &typed_value {
                    Some(v) => type_of(v),
                    None => Type::Void,
                };
                if !same_type(&returned, &result_type) {
                    return Err(SemanticError::ReturnTypeMismatch);
                }
                Ok(TypedAbstractSyntaxTree::new(TypedAbstractSyntaxNode::Return { value: typed_value }))
            },
            RawAbstractSyntaxNode::Break => {
                if !self.in_loop() {
                    return Err(SemanticError::JumpOutsideLoop);
                }
                Ok(TypedAbstractSyntaxTree::new(TypedAbstractSyntaxNode::Break))
            },
            RawAbstractSyntaxNode::Continue => {
                if !self.in_loop() {
                    return Err(SemanticError::JumpOutsideLoop);
                }
                Ok(TypedAbstractSyntaxTree::new(TypedAbstractSyntaxNode::Continue))
            },
            _ => Err(SemanticError::UnsupportedStatement),
        }
    }
}

impl SemanticTable {
    /// A table with one empty scope and nothing else.
    pub fn new() -> (table: Self)
        ensures
            table@ == initial_table(),
            table.scopes@.len() == 1,
    {
        let mut scopes: Vec<Vec<(String, Type)>> = Vec::new();
        scopes.push(Vec::new());
        let table = SemanticTable {
            scopes,
            frames: Vec::new(),
            functions: Vec::new(),
            classes: Vec::new(),
        };
        proof {
            assert(typed_names(Seq::<(String, Type)>::empty()) =~= Seq::<(Seq<char>, TypeView)>::empty());
            assert(table@.scopes =~= seq![Seq::<(Seq<char>, TypeView)>::empty()]);
            assert(table@ =~= initial_table());
        }
        table
    }

    /// Whether a function or a method of some class is named `Main`.
    fn has_main(&self) -> (found: bool)
        ensures
            found == has_main(self@),
    {
        let main = crate::translator::expression::text_of(&['M', 'a', 'i', 'n']);
        proof {
            assert(['M', 'a', 'i', 'n']@ =~= seq!['M', 'a', 'i', 'n']);
        }
        if find_function(&self.functions, &main).is_some() {
            return true;
        }
        let mut k: usize = 0;
        while k < self.classes.len()
            invariant
                k <= self.classes@.len(),
                main@ == seq!['M', 'a', 'i', 'n'],
                self@.classes.len() == self.classes@.len(),
                forall|j: int| 0 <= j < k ==> lookup(#[trigger] self@.classes[j].1.methods, main@) is None,
            decreases self.classes@.len() - k,
        {
            proof {
                assert(self@.classes[k as int].1 == class_view(self.classes@[k as int].1));
            }
            if find_function(&self.classes[k].1.methods, &main).is_some() {
                proof {
                    assert(lookup(self@.classes[k as int].1.methods, main@) is Some);
                }
                return true;
            }
            k = k + 1;
        }
        false
    }
}

/// The semantic analysis of a program: its definitions are collected, a `Main` function or
/// method must exist, and every statement is then checked and typed. The first error found
/// is returned.
pub fn semantic_analyze(ast: RawAbstractSyntaxTree) -> (typed: Result<
    TypedAbstractSyntaxTree,
    SemanticError,
>)
    ensures
        match (typed, semantics(tree_view(ast))) {
            (Ok(x), Ok(v)) => typed_tree_view(x) == v,
            (Err(a), Err(b)) => a == b,
            _ => false,
        },
{
    let mut table = SemanticTable::new();
    match table.collect_definitions(&ast) {
        Ok(_) => {},
        Err(e) => {
            return Err(e);
        },
    }
    if !table.has_main() {
        return Err(SemanticError::MissingMain);
    }
    proof {
        assert(table.scopes@.len() == 1);
    }
    table.analyze(&ast)
}

/// The expression of an optional typed expression.
pub open spec fn untyped_expression(e: Option<(ExpressionView, TypeTree)>) -> Option<ExpressionView> {
    match e {
        Some(p) => Some(p.0),
        None => None,
    }
}

/// A typed statement with its types dropped.
pub open spec fn untyped_node(node: TypedNodeView) -> NodeView
    decreases node,
{
    match node {
        TypedNodeView::If(c) => NodeView::If(c.0),
        TypedNodeView::ElseIf(c) => NodeView::ElseIf(c.0),
        TypedNodeView::Else => NodeView::Else,
        TypedNodeView::While(c) => NodeView::While(c.0),
        TypedNodeView::For(initializer, condition, increment) => NodeView::For(
            match initializer {
                Some(n) => Some(Box::new(untyped_node(*n))),
                None => None,
            },
            untyped_expression(condition),
            untyped_expression(increment),
        ),
        TypedNodeView::Callable(result_type, name, parameters) => NodeView::Callable(
            result_type,
            name,
            parameters,
        ),
        TypedNodeView::Class(name) => NodeView::Class(name),
        TypedNodeView::Expression(e) => NodeView::Expression(e.0),
        TypedNodeView::Declaration(typ, name, value) => NodeView::Declaration(
            typ,
            name,
            untyped_expression(value),
        ),
        TypedNodeView::Return(value) => NodeView::Return(untyped_expression(value)),
        TypedNodeView::Break => NodeView::Break,
        TypedNodeView::Continue => NodeView::Continue,
        TypedNodeView::Scope => NodeView::Scope,
        TypedNodeView::File => NodeView::File,
    }
}

/// A typed tree with its types dropped.
pub open spec fn untyped_tree(tree: TypedTreeView) -> TreeView
    decreases tree,
{
    TreeView { node: untyped_node(tree.node), children: untyped_trees(tree.children) }
}

/// Typed trees with their types dropped.
pub open spec fn untyped_trees(trees: Seq<TypedTreeView>) -> Seq<TreeView>
    decreases trees,
{
    if trees.len() == 0 {
        Seq::empty()
    } else {
        untyped_trees(trees.drop_last()).push(untyped_tree(trees.last()))
    }
}

/// Whether the statements that have no body of their own have no children, as the statement
/// builder makes them.
pub open spec fn childless_leaves(tree: TreeView) -> bool
    decreases tree,
{
    ((tree.node is Expression || tree.node is Declaration || tree.node is Return
        || tree.node is Break || tree.node is Continue) ==> tree.children.len() == 0)
        && forall|i: int| 0 <= i < tree.children.len() ==> childless_leaves(#[trigger] tree.children[i])
}

/// Typing an optional expression keeps the expression.
proof fn lemma_paired(env: Environment, value: Option<ExpressionView>)
    requires
        optional_typing(env, value) is Ok,
    ensures
        untyped_expression(paired(value, optional_typing(env, value)->Ok_0)) == value,
{
}

/// The statements of a body keep their order and their text through the analysis.
proof fn lemma_body_untyped(t: TableView, children: Seq<TreeView>)
    requires
        forall|i: int| 0 <= i < children.len() ==> childless_leaves(#[trigger] children[i]),
        body_analysis(t, children) is Ok,
    ensures
        untyped_trees(body_analysis(t, children)->Ok_0.0) == children,
    decreases children, 0nat,
{
    if children.len() > 0 {
        lemma_body_untyped(t, children.drop_last());
        let (before, t1) = body_analysis(t, children.drop_last())->Ok_0;
        lemma_analysis_untyped(t1, children.last());
        let (typed, t2) = analysis(t1, children.last())->Ok_0;
        assert(before.push(typed).drop_last() =~= before);
        assert(children.drop_last().push(children.last()) =~= children);
    }
}

/// The members of a class keep their order and their text through the analysis.
proof fn lemma_members_untyped(t: TableView, children: Seq<TreeView>)
    requires
        forall|i: int| 0 <= i < children.len() ==> childless_leaves(#[trigger] children[i]),
        class_members(t, children) is Ok,
    ensures
        untyped_trees(class_members(t, children)->Ok_0.0) == children,
    decreases children, 0nat,
{
    if children.len() > 0 {
        lemma_members_untyped(t, children.drop_last());
        let (before, t1) = class_members(t, children.drop_last())->Ok_0;
        let last = children.last();
        let typed = match last.node {
            NodeView::Declaration(typ, name, value) => {
                lemma_paired(environment_of(t1), value);
                assert(childless_leaves(children[children.len() - 1]));
                assert(last.children =~= Seq::<TreeView>::empty());
                TypedTreeView {
                    node: TypedNodeView::Declaration(
                        typ,
                        name,
                        paired(value, optional_typing(environment_of(t1), value)->Ok_0),
                    ),
                    children: Seq::empty(),
                }
            },
            _ => {
                lemma_analysis_untyped(t1, last);
                analysis(t1, last)->Ok_0.0
            },
        };
        assert(class_members(t, children)->Ok_0.0 == before.push(typed));
        assert(untyped_tree(typed) == last) by {
            if last.node is Declaration {
                assert(untyped_trees(typed.children) =~= last.children);
            }
        }
        assert(before.push(typed).drop_last() =~= before);
        assert(untyped_trees(before.push(typed)) == untyped_trees(before).push(untyped_tree(typed)));
        assert(untyped_trees(Seq::<TypedTreeView>::empty()) =~= Seq::<TreeView>::empty());
        assert(children.drop_last().push(children.last()) =~= children);
    }
}

/// A statement keeps its text through its check.
proof fn lemma_statement_untyped(t: TableView, tree: TreeView)
    requires
        childless_leaves(tree),
        statement_analysis(t, tree) is Ok,
    ensures
        untyped_tree(statement_analysis(t, tree)->Ok_0.0) == tree,
    decreases tree, 1nat,
{
    let env = environment_of(t);
    assert(untyped_trees(Seq::<TypedTreeView>::empty()) =~= Seq::<TreeView>::empty());
    match tree.node {
        NodeView::If(c) => {
            lemma_body_untyped(with_scope(t, Seq::empty()), tree.children);
        },
        NodeView::While(c) => {
            lemma_body_untyped(with_scope(t, Seq::empty()), tree.children);
        },
        NodeView::Callable(result_type, name, parameters) => {
            lemma_body_untyped(with_scope(t, parameter_scope(parameters)), tree.children);
        },
        NodeView::Class(name) => {
            let t1 = class_fields(with_scope(t, Seq::empty()), tree.children)->Ok_0;
            lemma_members_untyped(t1, tree.children);
        },
        NodeView::File => {
            lemma_body_untyped(with_scope(t, Seq::empty()), tree.children);
        },
        NodeView::Scope => {
            lemma_body_untyped(with_scope(t, Seq::empty()), tree.children);
        },
        NodeView::Else => {
            lemma_body_untyped(with_scope(t, Seq::empty()), tree.children);
        },
        NodeView::Declaration(typ, name, value) => {
            lemma_paired(env, value);
            assert(tree.children =~= Seq::<TreeView>::empty());
        },
        NodeView::Return(value) => {
            lemma_paired(env, value);
            assert(tree.children =~= Seq::<TreeView>::empty());
        },
        _ => {
            assert(tree.children =~= Seq::<TreeView>::empty());
        },
    }
}

/// A statement tree keeps its text through its analysis.
proof fn lemma_analysis_untyped(t: TableView, tree: TreeView)
    requires
        childless_leaves(tree),
        analysis(t, tree) is Ok,
    ensures
        untyped_tree(analysis(t, tree)->Ok_0.0) == tree,
    decreases tree, 2nat,
{
    let inner = TableView { frames: t.frames.push(frame_of(tree.node)), ..t };
    lemma_statement_untyped(inner, tree);
}

/// The analysis only adds types: dropping the types of an analysed program gives back the
/// program it was given, statement for statement and expression for expression.
pub proof fn lemma_analysis_only_adds_types(tree: TreeView)
    requires
        childless_leaves(tree),
        semantics(tree) is Ok,
    ensures
        untyped_tree(semantics(tree)->Ok_0) == tree,
{
    let t = collection(initial_table(), tree)->Ok_0;
    lemma_analysis_untyped(t, tree);
}

/// Whether a callable named `Main` is defined where the first walk looks: directly in a file,
/// a scope or a class, or in one of those inside them.
pub open spec fn main_declared(tree: TreeView) -> bool
    decreases tree,
{
    match tree.node {
        NodeView::Callable(_, name, _) => name == seq!['M', 'a', 'i', 'n'],
        NodeView::File | NodeView::Scope | NodeView::Class(_) => exists|i: int|
            0 <= i < tree.children.len() && main_declared(#[trigger] tree.children[i]),
        _ => false,
    }
}

/// Whether one of `trees` declares `Main`.
pub open spec fn main_declared_in(trees: Seq<TreeView>) -> bool {
    exists|i: int| 0 <= i < trees.len() && main_declared(#[trigger] trees[i])
}

/// An entry under another key leaves a lookup as it was.
proof fn lemma_lookup_other<V>(entries: Seq<(Seq<char>, V)>, entry: (Seq<char>, V), key: Seq<char>)
    requires
        entry.0 != key,
    ensures
        lookup(entries.push(entry), key) == lookup(entries, key),
{
    assert(entries.push(entry).drop_last() =~= entries);
}

/// Adding a member other than a method `Main` leaves every class's lookup of `Main` as it was.
proof fn lemma_add_member_keeps_main(
    classes: Seq<(Seq<char>, ClassView)>,
    class: Seq<char>,
    field: Option<(Seq<char>, TypeView)>,
    method: Option<(Seq<char>, (TypeView, Seq<TypeView>))>,
)
    requires
        method matches Some(m) ==> m.0 != seq!['M', 'a', 'i', 'n'],
    ensures
        add_member(classes, class, field, method).len() == classes.len(),
        forall|j: int|
            0 <= j < classes.len() ==> lookup(
                #[trigger] add_member(classes, class, field, method)[j].1.methods,
                seq!['M', 'a', 'i', 'n'],
            ) == lookup(classes[j].1.methods, seq!['M', 'a', 'i', 'n']),
{
    let main = seq!['M', 'a', 'i', 'n'];
    let i = last_key_index(classes, class);
    if 0 <= i < classes.len() {
        match method {
            Some(m) => lemma_lookup_other(classes[i].1.methods, m, main),
            None => {},
        }
    }
}

/// A first walk that adds `Main` where there was none found a callable `Main` in the tree.
proof fn lemma_collection_finds_main(t: TableView, tree: TreeView)
    ensures
        collection(t, tree) matches Ok(after) ==> (has_main(after) ==> has_main(t) || main_declared(
            tree,
        )),
    decreases tree, 1nat,
{
    let main = seq!['M', 'a', 'i', 'n'];
    match tree.node {
        NodeView::Class(name) => {
            if lookup(t.classes, name) is None {
                let opened = TableView {
                    classes: t.classes.push((name, empty_class())),
                    frames: t.frames.push(FrameView::Class(name)),
                    ..t
                };
                lemma_collection_all_finds_main(opened, tree.children);
                if has_main(opened) && !(lookup(opened.functions, main) is Some) {
                    let i = choose|i: int|
                        0 <= i < opened.classes.len() && lookup(#[trigger] opened.classes[i].1.methods, main)
                            is Some;
                    if i == t.classes.len() {
                        assert(opened.classes[i].1.methods =~= Seq::empty());
                    } else {
                        assert(opened.classes[i] == t.classes[i]);
                    }
                }
            }
        },
        NodeView::Callable(result_type, name, parameters) => {
            if name != main {
                let signature = (result_type, parameters.map_values(|p: (TypeView, Seq<char>)| p.0));
                match collection(t, tree) {
                    Ok(after) => {
                        match class_context(t.frames) {
                            Some(class) => {
                                lemma_add_member_keeps_main(t.classes, class, None, Some((name, signature)));
                                if has_main(after) && !(lookup(t.functions, main) is Some) {
                                    let i = choose|i: int|
                                        0 <= i < after.classes.len() && lookup(
                                            #[trigger] after.classes[i].1.methods,
                                            main,
                                        ) is Some;
                                    assert(lookup(t.classes[i].1.methods, main) is Some);
                                }
                            },
                            None => {
                                lemma_lookup_other(t.functions, (name, signature), main);
                            },
                        }
                    },
                    Err(_) => {},
                }
            }
        },
        NodeView::Declaration(typ, name, _) => {
            if t.frames.len() > 0 {
                match t.frames.last() {
                    FrameView::Class(class) => {
                        lemma_add_member_keeps_main(t.classes, class, Some((name, typ)), None);
                        match collection(t, tree) {
                            Ok(after) => {
                                if has_main(after) && !(lookup(t.functions, main) is Some) {
                                    let i = choose|i: int|
                                        0 <= i < after.classes.len() && lookup(
                                            #[trigger] after.classes[i].1.methods,
                                            main,
                                        ) is Some;
                                    assert(lookup(t.classes[i].1.methods, main) is Some);
                                }
                            },
                            Err(_) => {},
                        }
                    },
                    _ => {},
                }
            }
        },
        NodeView::File | NodeView::Scope => {
            let opened = TableView { frames: t.frames.push(FrameView::Other), ..t };
            lemma_collection_all_finds_main(opened, tree.children);
        },
        _ => {},
    }
}

/// The same over a sequence of statements.
proof fn lemma_collection_all_finds_main(t: TableView, trees: Seq<TreeView>)
    ensures
        collection_all(t, trees) matches Ok(after) ==> (has_main(after) ==> has_main(t)
            || main_declared_in(trees)),
    decreases trees, 0nat,
{
    if trees.len() > 0 {
        lemma_collection_all_finds_main(t, trees.drop_last());
        match collection_all(t, trees.drop_last()) {
            Ok(t1) => {
                lemma_collection_finds_main(t1, trees.last());
                if main_declared_in(trees.drop_last()) {
                    let i = choose|i: int|
                        0 <= i < trees.drop_last().len() && main_declared(#[trigger] trees.drop_last()[i]);
                    assert(trees[i] == trees.drop_last()[i]);
                }
                if main_declared(trees.last()) {
                    assert(trees[trees.len() - 1] == trees.last());
                }
            },
            Err(_) => {},
        }
    }
}

/// The analysis succeeds only on a program that declares a callable `Main`, as a function or
/// as a method; and where the definitions are collected without error but no `Main` is
/// declared, it fails with `MissingMain`.
pub proof fn lemma_analysis_needs_main(tree: TreeView)
    ensures
        semantics(tree) is Ok ==> main_declared(tree),
        collection(initial_table(), tree) is Ok && !main_declared(tree) ==> semantics(tree)
            == Err::<TypedTreeView, SemanticError>(SemanticError::MissingMain),
{
    lemma_collection_finds_main(initial_table(), tree);
    let main = seq!['M', 'a', 'i', 'n'];
    assert(!has_main(initial_table()));
}

/// Every comparison (`==`, `!=`, `<`, `<=`, `>`, `>=`) is typed `bool`: whenever the
/// comparison of two typed operands is accepted its type is `bool`, and it is accepted when
/// the operands have one type, which for `<`, `<=`, `>` and `>=` is `int`.
pub proof fn lemma_comparisons_are_bool(
    env: Environment,
    left: ExpressionView,
    right: ExpressionView,
    operator: ExpressionBinaryOperator,
    l: TypeTree,
    r: TypeTree,
)
    requires
        operator == ExpressionBinaryOperator::Equal || operator == ExpressionBinaryOperator::NotEqual
            || operator == ExpressionBinaryOperator::Less || operator
            == ExpressionBinaryOperator::LessEqual || operator == ExpressionBinaryOperator::Greater
            || operator == ExpressionBinaryOperator::GreaterEqual,
        typing(env, left) == Ok::<TypeTree, SemanticError>(l),
        typing(env, right) == Ok::<TypeTree, SemanticError>(r),
    ensures
        typing(env, ExpressionView::Binary(Box::new(left), operator, Box::new(right))) is Ok
            ==> typing(env, ExpressionView::Binary(Box::new(left), operator, Box::new(right)))->Ok_0.typ
            == TypeView::Bool,
        l.typ == r.typ && (operator == ExpressionBinaryOperator::Equal || operator
            == ExpressionBinaryOperator::NotEqual || l.typ == TypeView::Int) ==> typing(
            env,
            ExpressionView::Binary(Box::new(left), operator, Box::new(right)),
        ) == Ok::<TypeTree, SemanticError>(TypeTree { typ: TypeView::Bool, parts: seq![l, r] }),
{
}

} // verus!
