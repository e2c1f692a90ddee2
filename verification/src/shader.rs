//! SPIR-V shader code as the 32-bit words a shader module is created from.
use vstd::prelude::*;

verus! {

/// The shader bytes cannot be viewed as 32-bit words: their length is not a
/// multiple of four or they are not aligned to four bytes.
#[derive(Clone, Copy, Debug, PartialEq, Eq, Structural)]
pub enum ShaderCodeError {
    NotWordAligned,
}

/// `bytemuck::try_cast_slice::<u8, u32>` on the shader bytes, copied out
/// into a vector. Stated: on success there are a quarter as many words as
/// bytes, and a length that is not a multiple of four fails. Not stated: the
/// word values (the bytes in the machine's byte order) and whether an
/// address not aligned to four bytes fails, both of which depend on the
/// machine.
#[verifier::external_body]
fn try_cast_words(spirv: &[u8]) -> (words: Option<Vec<u32>>)
    ensures
        words matches Some(w) ==> w.len() * 4 == spirv.len(),
        spirv.len() % 4 != 0 ==> words is None,
{
    match bytemuck::try_cast_slice::<u8, u32>(spirv) {
        Ok(w) => Some(w.to_vec()),
        Err(_) => None,
    }
}

/// The result of shader code preparation for a given outcome of the word
/// cast: the words when the cast succeeded, `NotWordAligned` when it failed.
pub fn shader_words_from_cast(cast: Option<Vec<u32>>) -> (result: Result<Vec<u32>, ShaderCodeError>)
    ensures
        match cast {
            Some(w) => result == Ok::<Vec<u32>, ShaderCodeError>(w),
            None => result == Err::<Vec<u32>, ShaderCodeError>(ShaderCodeError::NotWordAligned),
        },
{
    match cast {
        Some(words) => Ok(words),
        None => Err(ShaderCodeError::NotWordAligned),
    }
}

/// The words of a SPIR-V module for shader module creation; an error when
/// the bytes are not a whole number of aligned words. Whether the bytes are
/// aligned depends on where they lie in memory, so success is decided by the
/// word cast; `shader_words_from_cast` states the result for each outcome.
pub fn shader_code_words(spirv: &[u8]) -> (result: Result<Vec<u32>, ShaderCodeError>)
    ensures
        result matches Ok(w) ==> w.len() * 4 == spirv.len(),
        spirv.len() % 4 != 0 ==> result == Err::<Vec<u32>, ShaderCodeError>(
            ShaderCodeError::NotWordAligned,
        ),
{
    let cast = try_cast_words(spirv);
    shader_words_from_cast(cast)
}

} // verus!
