use vstd::prelude::*;

verus! {

/// The stage of the graphics pipeline a shader is compiled for.
#[derive(Debug, Clone, Copy, PartialEq, Eq, Structural)]
pub enum ShaderStage {
    Vertex,
    Fragment,
    Compute,
}

/// A shader that did not compile, with the compiler's message.
#[derive(Debug, Clone)]
pub struct ShaderCompilationError {
    pub msg: String,
}

impl ShaderCompilationError {
    /// The error as the user reads it.
    pub fn to_string(&self) -> (r: String)
        ensures
            r@ == "shader compilation error "@ + self.msg@,
    {
        let mut r = "shader compilation error ".to_owned();
        r.append(self.msg.as_str());
        r
    }
}

/// The little-endian bytes of `words`, word after word.
pub open spec fn le_bytes_of(words: Seq<u32>) -> Seq<u8>
    decreases words.len(),
{
    if words.len() == 0 {
        Seq::empty()
    } else {
        le_bytes_of(words.drop_last()) + vstd::bytes::spec_u32_to_le_bytes(words.last())
    }
}

/// The bytes of the file that holds a compiled shader's words: each word
/// in little-endian order.
pub fn spirv_bytes(words: &Vec<u32>) -> (r: Vec<u8>)
    ensures
        r@ == le_bytes_of(words@),
        r@.len() == 4 * words@.len(),
{
    let mut r: Vec<u8> = Vec::new();
    let mut k: usize = 0;
    while k < words.len()
        invariant
            0 <= k <= words@.len(),
            r@ == le_bytes_of(words@.take(k as int)),
            r@.len() == 4 * k,
        decreases words@.len() - k,
    {
        let b = vstd::bytes::u32_to_le_bytes(words[k]);
        let ghost before = r@;
        r.push(b[0]);
        r.push(b[1]);
        r.push(b[2]);
        r.push(b[3]);
        proof {
            assert(words@.take(k + 1).drop_last() =~= words@.take(k as int));
            assert(r@ =~= before + b@);
        }
        k = k + 1;
    }
    proof {
        assert(words@.take(k as int) =~= words@);
    }
    r
}

} // verus!
