//! O catálogo de raios (GLM-L2-LCFA) e o registro intermediário de parse.
//!
//! - [`raios::Model`]: um ponto por flash (nível de flash do LCFA, já
//!   geolocalizado em lat/lon WGS84).
//! - [`arquivos::Model`]: uma linha por `.nc` processado (livro-razão, inclusive
//!   arquivos sem flash no BBOX): a base durável do dedupe pós-restart.
//!
//! `F` é o tipo das grandezas medidas (graus, joules, metros quadrados).

pub mod arquivos;
pub mod raios;

use crate::momento::Momento;
use vstd::prelude::*;

verus! {

/// Flash já parseado de um `.nc` (saída do coletor-glm, entrada do catálogo).
/// Coordenadas em graus WGS84; `energia`/`area` decodificados, `None` quando o
/// arquivo traz o valor de preenchimento.
#[derive(Debug, Clone)]
pub struct Flash<F> {
    /// Id do flash dentro do arquivo (único por `.nc`).
    pub flash_id: i32,
    /// Início absoluto do flash (início do arquivo + offset do 1º evento).
    pub tempo: Momento,
    pub lat: F,
    pub lon: F,
    /// Energia radiante (J).
    pub energia: Option<F>,
    /// Área de cobertura (m²).
    pub area: Option<F>,
    /// `flash_quality_flag` (0 = bom). Filtrado na consulta, não no ingest.
    pub qualidade: i16,
}

} // verus!
