use vstd::prelude::*;

verus! {

/// How one value object stands to another in the order of their equality
/// components.
#[derive(Clone, Copy, Debug, PartialEq, Eq, Structural)]
pub enum ValueOrder {
    Less,
    Equal,
    Greater,
}

/// The order of two lists of equality components: the components are
/// compared in turn, in the order in which the fields are declared, and the
/// first pair that differs decides. A list that ends first stands before
/// every longer list that begins with it.
pub open spec fn ordered(left: Seq<i64>, right: Seq<i64>) -> ValueOrder
    decreases left.len(),
{
    if left.len() == 0 {
        if right.len() == 0 {
            ValueOrder::Equal
        } else {
            ValueOrder::Less
        }
    } else if right.len() == 0 {
        ValueOrder::Greater
    } else if left[0] < right[0] {
        ValueOrder::Less
    } else if left[0] > right[0] {
        ValueOrder::Greater
    } else {
        ordered(left.skip(1), right.skip(1))
    }
}

/// Whether two value objects are the same value: their equality components
/// are equal, whatever else they carry.
pub open spec fn is_same_value<V: ValueObject>(left: V, right: V) -> bool {
    left.components() == right.components()
}

/// Whether two lists of equality components are equal.
pub fn same_components(left: &Vec<i64>, right: &Vec<i64>) -> (same: bool)
    ensures
        same == (left@ == right@),
{
    if left.len() != right.len() {
        return false;
    }
    let mut i: usize = 0;
    while i < left.len()
        invariant
            left@.len() == right@.len(),
            i <= left@.len(),
            left@.take(i as int) == right@.take(i as int),
        decreases left@.len() - i,
    {
        if left[i] != right[i] {
            assert(left@[i as int] != right@[i as int]);
            return false;
        }
        i += 1;
        assert(left@.take(i as int) =~= left@.take(i - 1).push(left@[i - 1]));
        assert(right@.take(i as int) =~= right@.take(i - 1).push(right@[i - 1]));
    }
    assert(left@.take(i as int) =~= left@);
    assert(right@.take(i as int) =~= right@);
    true
}

/// The order of two lists of equality components.
pub fn order_components(left: &Vec<i64>, right: &Vec<i64>) -> (order: ValueOrder)
    ensures
        order == ordered(left@, right@),
{
    let mut i: usize = 0;
    assert(left@.skip(0) =~= left@);
    assert(right@.skip(0) =~= right@);
    while i < left.len() && i < right.len()
        invariant
            i <= left@.len(),
            i <= right@.len(),
            ordered(left@, right@) == ordered(left@.skip(i as int), right@.skip(i as int)),
        decreases left@.len() - i,
    {
        let ghost left_rest = left@.skip(i as int);
        let ghost right_rest = right@.skip(i as int);
        assert(left_rest[0] == left@[i as int]);
        assert(right_rest[0] == right@[i as int]);
        if left[i] < right[i] {
            return ValueOrder::Less;
        }
        if left[i] > right[i] {
            return ValueOrder::Greater;
        }
        assert(left_rest.skip(1) =~= left@.skip(i + 1));
        assert(right_rest.skip(1) =~= right@.skip(i + 1));
        i += 1;
    }
    if i < right.len() {
        ValueOrder::Less
    } else if i < left.len() {
        ValueOrder::Greater
    } else {
        ValueOrder::Equal
    }
}

/// A value object: a domain object without identity, told apart by the
/// values of its equality components alone. The fields outside the equality
/// components are carried and take no part in equality or order.
pub trait ValueObject: Clone {
    /// The equality components, in the order in which the fields are
    /// declared.
    spec fn components(&self) -> Seq<i64>;

    /// The equality components, in the order in which the fields are
    /// declared.
    fn equality_components(&self) -> (list: Vec<i64>)
        ensures
            list@ == self.components(),
    ;

    /// A clone has the equality components of the value it was taken from.
    proof fn clone_keeps_components(source: Self, copy: Self)
        requires
            cloned(source, copy),
        ensures
            copy.components() == source.components(),
    ;

    /// Whether `self` and `other` are the same value.
    fn same_value(&self, other: &Self) -> (same: bool)
        ensures
            same == (self.components() == other.components()),
    {
        let left = self.equality_components();
        let right = other.equality_components();
        same_components(&left, &right)
    }

    /// How `self` stands to `other` in the order of their equality
    /// components.
    fn value_order(&self, other: &Self) -> (order: ValueOrder)
        ensures
            order == ordered(self.components(), other.components()),
    {
        let left = self.equality_components();
        let right = other.equality_components();
        order_components(&left, &right)
    }
}

/// Equality depends on the equality components alone: a value object whose
/// equality components were left as they were is the same value as a clone
/// taken before it changed.
pub proof fn lemma_equality_ignores_other_fields<V: ValueObject>(source: V, copy: V, changed: V)
    requires
        cloned(source, copy),
        changed.components() == source.components(),
    ensures
        is_same_value(changed, copy),
{
    V::clone_keeps_components(source, copy);
}

/// Two lists stand as equal exactly when they are equal.
pub proof fn lemma_equal_order_is_equality(left: Seq<i64>, right: Seq<i64>)
    ensures
        ordered(left, right) == ValueOrder::Equal <==> left == right,
    decreases left.len(),
{
    if left.len() > 0 && right.len() > 0 && left[0] == right[0] {
        lemma_equal_order_is_equality(left.skip(1), right.skip(1));
        if left.skip(1) == right.skip(1) {
            assert(left =~= seq![left[0]] + left.skip(1));
            assert(right =~= seq![right[0]] + right.skip(1));
        }
    } else if left.len() == 0 && right.len() == 0 {
        assert(left =~= right);
    }
}

/// The order is antisymmetric: one list stands before another exactly when
/// the other stands after it.
pub proof fn lemma_order_is_antisymmetric(left: Seq<i64>, right: Seq<i64>)
    ensures
        ordered(left, right) == ValueOrder::Less <==> ordered(right, left) == ValueOrder::Greater,
    decreases left.len(),
{
    if left.len() > 0 && right.len() > 0 && left[0] == right[0] {
        lemma_order_is_antisymmetric(left.skip(1), right.skip(1));
    }
}

/// The order is transitive.
pub proof fn lemma_order_is_transitive(first: Seq<i64>, second: Seq<i64>, third: Seq<i64>)
    requires
        ordered(first, second) == ValueOrder::Less,
        ordered(second, third) == ValueOrder::Less,
    ensures
        ordered(first, third) == ValueOrder::Less,
    decreases first.len(),
{
    if first.len() > 0 && second.len() > 0 && third.len() > 0 && first[0] == second[0] && second[0]
        == third[0] {
        lemma_order_is_transitive(first.skip(1), second.skip(1), third.skip(1));
    }
}

} // verus!
