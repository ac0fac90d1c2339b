use crate::machine::alu::{alu_outcome, flags_after, Alu, AluOperator};
use crate::machine::data_memory::VectorWord;
use vstd::prelude::*;

verus! {

/// The operations that the vector unit applies lane by lane.
#[derive(Clone, Copy)]
pub enum VectorAluOperator {
    Add,
    Sub,
    Mul,
    Div,
    Rem,
    And,
    Or,
    Xor,
}

/// The scalar operation that each lane performs for a vector operation.
pub open spec fn lane_operator(operator: VectorAluOperator) -> AluOperator {
    match operator {
        VectorAluOperator::Add => AluOperator::Add,
        VectorAluOperator::Sub => AluOperator::Sub,
        VectorAluOperator::Mul => AluOperator::Mul,
        VectorAluOperator::Div => AluOperator::Div,
        VectorAluOperator::Rem => AluOperator::Rem,
        VectorAluOperator::And => AluOperator::And,
        VectorAluOperator::Or => AluOperator::Or,
        VectorAluOperator::Xor => AluOperator::Xor,
    }
}

/// Four arithmetic logic units that work on the four lanes of a vector word, each with
/// its own flags.
pub struct VectorAlu {
    pub block: [Alu; 4],
}

impl VectorAlu {
    pub fn new() -> (unit: Self)
        ensures
            forall|i: int|
                0 <= i < 4 ==> (#[trigger] unit.block@[i]).nzcv == (crate::machine::nzcv::Nzcv {
                    negative: false,
                    zero: true,
                    carry: false,
                    overflow: false,
                }),
    {
        Self { block: [Alu::default(), Alu::default(), Alu::default(), Alu::default()] }
    }

    fn lane_operator(operator: VectorAluOperator) -> (scalar: AluOperator)
        ensures
            scalar == lane_operator(operator),
    {
        match operator {
            VectorAluOperator::Add => AluOperator::Add,
            VectorAluOperator::Sub => AluOperator::Sub,
            VectorAluOperator::Mul => AluOperator::Mul,
            VectorAluOperator::Div => AluOperator::Div,
            VectorAluOperator::Rem => AluOperator::Rem,
            VectorAluOperator::And => AluOperator::And,
            VectorAluOperator::Or => AluOperator::Or,
            VectorAluOperator::Xor => AluOperator::Xor,
        }
    }

    /// Applies the operation to each pair of lanes; each lane's unit updates its own flags.
    pub fn execute_operator(
        &mut self,
        operator: VectorAluOperator,
        left: VectorWord,
        right: VectorWord,
    ) -> (output: VectorWord)
        ensures
            forall|i: int|
                0 <= i < 4 ==> {
                    let outcome = alu_outcome(
                        lane_operator(operator),
                        left@[i],
                        right@[i],
                        old(self).block@[i].nzcv.carry,
                    );
                    &&& #[trigger] output@[i] == outcome.result
                    &&& final(self).block@[i].nzcv == flags_after(
                        old(self).block@[i].nzcv,
                        outcome,
                    )
                },
    {
        let scalar = Self::lane_operator(operator);
        let mut output: VectorWord = [0u64, 0, 0, 0];
        let mut i: usize = 0;
        while i < 4
            invariant
                i <= 4,
                scalar == lane_operator(operator),
                forall|j: int| i <= j < 4 ==> #[trigger] self.block@[j] == old(self).block@[j],
                forall|j: int|
                    0 <= j < i ==> {
                        let outcome = alu_outcome(
                            scalar,
                            left@[j],
                            right@[j],
                            old(self).block@[j].nzcv.carry,
                        );
                        &&& #[trigger] output@[j] == outcome.result
                        &&& self.block@[j].nzcv == flags_after(old(self).block@[j].nzcv, outcome)
                    },
            decreases 4 - i,
        {
            let ghost before_block = self.block@;
            let ghost before_output = output@;
            let mut lane = Alu { nzcv: self.block[i].nzcv };
            let value = lane.execute_operator(scalar, left[i], right[i]);
            output[i] = value;
            self.block[i] = lane;
            assert(forall|j: int| 0 <= j < 4 && j != i ==> self.block@[j] == before_block[j]);
            assert(forall|j: int| 0 <= j < 4 && j != i ==> output@[j] == before_output[j]);
            i = i + 1;
        }
        output
    }
}

} // verus!
