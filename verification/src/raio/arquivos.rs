//! Tabela `raios_arquivos`: livro-razão (uma linha por `.nc` processado).

use crate::momento::Momento;
use vstd::prelude::*;

verus! {

/// Linha da tabela `raios_arquivos`. `processado_em` é `None` na linha a
/// inserir: quem o preenche é o banco.
#[derive(Clone, Debug)]
pub struct Model {
    pub fonte: String,
    pub chave_origem: String,
    pub inicio: Momento,
    pub qtd_flashes: i32,
    pub processado_em: Option<Momento>,
}

} // verus!
