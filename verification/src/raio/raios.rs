//! Tabela `raios`: um ponto por flash.

use crate::momento::Momento;
use vstd::prelude::*;

verus! {

/// Linha da tabela `raios`.
#[derive(Clone, Debug)]
pub struct Model<F> {
    pub fonte: String,
    pub chave_origem: String,
    pub flash_id: i32,
    pub tempo: Momento,
    pub lat: F,
    pub lon: F,
    pub energia: Option<F>,
    pub area: Option<F>,
    pub qualidade: i16,
}

} // verus!
