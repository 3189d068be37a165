use vstd::prelude::*;

verus! {

/// The record held by one entry: the bytes of an input.
#[derive(Debug)]
pub struct Testcase {
    pub input: Vec<u8>,
}

impl View for Testcase {
    type V = Seq<u8>;

    open spec fn view(&self) -> Seq<u8> {
        self.input@
    }
}

impl Testcase {
    /// A test case holding `input`.
    pub fn new(input: Vec<u8>) -> (r: Testcase)
        ensures
            r@ == input@,
    {
        Testcase { input }
    }

    /// The bytes of the input.
    pub fn input(&self) -> (r: &Vec<u8>)
        ensures
            r@ == self@,
    {
        &self.input
    }

    /// A copy of this test case.
    pub fn duplicate(&self) -> (r: Testcase)
        ensures
            r@ == self@,
    {
        let mut input: Vec<u8> = Vec::new();
        let mut i: usize = 0;
        while i < self.input.len()
            invariant
                i <= self.input.len(),
                input@ == self.input@.subrange(0, i as int),
            decreases self.input.len() - i,
        {
            input.push(self.input[i]);
            i = i + 1;
            proof {
                assert(input@ =~= self.input@.subrange(0, i as int));
            }
        }
        proof {
            assert(input@ =~= self.input@);
        }
        Testcase { input }
    }
}

} // verus!
