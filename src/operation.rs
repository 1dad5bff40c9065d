//! A binary matrix operation whose result is computed once and kept.

use crate::matrix::{Matrix, MatrixView};
use vstd::prelude::*;

verus! {

/// Which arithmetic an operation performs.
#[derive(Debug, Clone, Copy, PartialEq, Eq, Structural)]
pub enum Operator {
    Multiply,
    Add,
    Subtract,
}

impl Operator {
    /// The line that names the operator in an operation's text.
    pub open spec fn label_text(self) -> Seq<char> {
        match self {
            Operator::Multiply => "Multiplied by\n"@,
            Operator::Add => "Added to\n"@,
            Operator::Subtract => "Minus\n"@,
        }
    }

    /// The line that names the operator, line break included.
    pub fn label(&self) -> (s: &'static str)
        ensures
            s@ == self.label_text(),
    {
        match self {
            Operator::Multiply => "Multiplied by\n",
            Operator::Add => "Added to\n",
            Operator::Subtract => "Minus\n",
        }
    }
}

/// The mathematical content of an operation.
pub struct OperationView {
    pub left: MatrixView,
    pub operator: Operator,
    pub right: MatrixView,
    pub result: Option<MatrixView>,
}

impl OperationView {
    /// The operands fit the operator: equal shapes for a sum or difference,
    /// matching inner dimensions (and a product that fits in memory) for a
    /// product.
    pub open spec fn computable(self) -> bool {
        match self.operator {
            Operator::Add | Operator::Subtract => self.left.same_shape(self.right),
            Operator::Multiply => self.left.cols == self.right.rows && self.left.rows
                * self.right.cols <= usize::MAX,
        }
    }

    /// What the operator yields on the two operands.
    pub open spec fn outcome(self) -> MatrixView {
        match self.operator {
            Operator::Add => self.left.plus(self.right),
            Operator::Subtract => self.left.minus(self.right),
            Operator::Multiply => self.left.times(self.right),
        }
    }

    /// The operation as displayed: the left operand, the operator's line, the
    /// right operand, and, once a result is kept, an "Equals" section with it.
    pub open spec fn text(self) -> Seq<char> {
        match self.result {
            Some(m) => "\n"@ + self.body_text() + "\nEquals\n\n"@ + m.text(),
            None => self.body_text(),
        }
    }

    /// The operands and the operator's line, as displayed.
    pub open spec fn body_text(self) -> Seq<char> {
        self.left.text() + "\n"@ + self.operator.label_text() + "\n"@ + self.right.text()
    }
}

/// Storing the result adds an "Equals" section with the computed matrix to
/// the operation's text, after the unchanged operands; before anything is
/// stored the text is the operands and the operator alone.
pub proof fn lemma_text_after_store(before: OperationView)
    requires
        before.computable(),
    ensures
        before.result is None ==> before.text() == before.body_text(),
        (OperationView { result: Some(before.outcome()), ..before }).text() == "\n"@
            + before.body_text() + "\nEquals\n\n"@ + before.outcome().text(),
{
}

/// Two operands, an operator, and the result once it has been computed.
#[derive(Debug)]
pub struct Operation {
    left_operand: Matrix,
    operator: Operator,
    right_operand: Matrix,
    result: Option<Matrix>,
}

impl View for Operation {
    type V = OperationView;

    closed spec fn view(&self) -> OperationView {
        OperationView {
            left: self.left_operand@,
            operator: self.operator,
            right: self.right_operand@,
            result: match self.result {
                Some(m) => Some(m@),
                None => None,
            },
        }
    }
}

impl Operation {
    /// An operation over the given operands, with the result as given (usually
    /// `None`, before anything is computed).
    pub fn new(
        left_operand: Matrix,
        operator: Operator,
        right_operand: Matrix,
        result: Option<Matrix>,
    ) -> (op: Operation)
        ensures
            op@ == (OperationView {
                left: left_operand@,
                operator,
                right: right_operand@,
                result: match result {
                    Some(m) => Some(m@),
                    None => None,
                },
            }),
    {
        Operation { left_operand, operator, right_operand, result }
    }

    /// The left operand.
    pub fn left_operand(&self) -> (m: &Matrix)
        ensures
            m@ == self@.left,
    {
        &self.left_operand
    }

    /// The operator.
    pub fn operator(&self) -> (o: Operator)
        ensures
            o == self@.operator,
    {
        self.operator
    }

    /// The right operand.
    pub fn right_operand(&self) -> (m: &Matrix)
        ensures
            m@ == self@.right,
    {
        &self.right_operand
    }

    /// The kept result, if one has been stored.
    pub fn result(&self) -> (r: Option<&Matrix>)
        ensures
            r is Some <==> self@.result is Some,
            r matches Some(m) ==> self@.result == Some(m@),
    {
        match &self.result {
            Some(m) => Some(m),
            None => None,
        }
    }

    /// Whether the operands fit the operator, so that it can be computed.
    pub fn is_computable(&self) -> (b: bool)
        ensures
            b == self@.computable(),
    {
        let l = &self.left_operand;
        let r = &self.right_operand;
        match self.operator {
            Operator::Add | Operator::Subtract => l.rows() == r.rows() && l.cols() == r.cols(),
            Operator::Multiply => l.cols() == r.rows() && match l.rows().checked_mul(r.cols()) {
                Some(_) => true,
                None => false,
            },
        }
    }

    /// Applies the operator to the two operands.
    pub fn do_operation(&self) -> (m: Matrix)
        requires
            self@.computable(),
        ensures
            m@ == self@.outcome(),
    {
        match self.operator {
            Operator::Add => self.left_operand.add_mat(&self.right_operand),
            Operator::Subtract => self.left_operand.sub_mat(&self.right_operand),
            Operator::Multiply => self.left_operand.mul_mat(&self.right_operand),
        }
    }

    /// Computes the result and keeps it, replacing any kept before.
    pub fn do_operation_and_store(&mut self)
        requires
            old(self)@.computable(),
        ensures
            final(self)@ == (OperationView { result: Some(old(self)@.outcome()), ..old(self)@ }),
    {
        let m = self.do_operation();
        self.result = Some(m);
    }

    /// The operation as text: the left operand, the operator's line, the
    /// right operand, and, once a result is kept, an "Equals" section with it.
    pub fn to_text(&self) -> (t: String)
        ensures
            t@ == self@.text(),
    {
        let mut body = self.left_operand.to_text();
        body.append("\n");
        body.append(self.operator.label());
        body.append("\n");
        body.append(self.right_operand.to_text().as_str());
        proof {
            reveal_strlit("\n");
        }
        match &self.result {
            Some(m) => {
                let mut text = String::new();
                text.append("\n");
                text.append(body.as_str());
                text.append("\nEquals\n\n");
                text.append(m.to_text().as_str());
                proof {
                    reveal_strlit("\nEquals\n\n");
                }
                text
            },
            None => body,
        }
    }
}

} // verus!
