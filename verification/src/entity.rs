//! O catálogo de frames: uma linha da tabela `frames`.

use crate::momento::Momento;
use vstd::prelude::*;

verus! {

/// Linha da tabela `frames`. A chave primária é `(fonte, chave_origem, inicio)`:
/// a coluna de partição da hypertable precisa estar nela.
#[derive(Clone, Debug)]
pub struct Model {
    pub fonte: String,
    pub produto: String,
    pub canal: Option<String>,
    pub chave_origem: String,
    pub chave_destino: String,
    pub tamanho_bytes: i64,
    pub inicio: Momento,
    pub fim: Option<Momento>,
    pub processado_em: Momento,
}

} // verus!
