//! Coletor de imagens e raios do GOES-19.
//!
//! Reúne o que é comum aos processos (coletor-c13, coletor-glm, catalogo e
//! visor-raios): configuração, convenções de chave do NODD, catálogo durável,
//! consultas, o loop genérico de ingest e as caudas de cada coletor. Nada aqui
//! faz I/O: quem lista, baixa, grava e serve entrega valores e recebe decisões.

pub mod config;
pub mod entity;
pub mod glm;
pub mod logging;
pub mod momento;
pub mod nodd;
pub mod ordem;
pub mod pipeline;
pub mod process;
pub mod query;
pub mod raio;
pub mod serve;
pub mod state;
pub mod storage;
pub mod texto;
pub mod visor;

use vstd::prelude::*;

verus! {

/// Fonte das imagens. Fixa por ora (GOES-19 via NODD).
pub const FONTE: &'static str = "noaa-goes-19";

/// BBOX da cobertura `[oeste, sul, leste, norte]` em EPSG:4326, em graus inteiros:
/// América do Sul + Atlântico, estendido a Oeste até ~Cidade do México (−100°W).
/// Compartilhado: recorte do raster C13 e clip dos pontos GLM.
pub const BBOX: [i32; 4] = [-100, -56, -20, 13];

} // verus!
