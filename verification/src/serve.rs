//! Servidor gRPC do catálogo: o que cada chamada consulta, recusa e responde.
//!
//! Expõe **metadado**, não bytes de tile: cada [`Frame`] devolvido traz uma URL
//! pré-assinada do `.pmtiles`, que o consumidor carrega direto do bucket. Já os
//! **raios** (flashes GLM) trafegam inline. `F` é o tipo das grandezas medidas.

use crate::config::Config;
use crate::entity;
use crate::momento;
use crate::momento::Momento;
use crate::query;
use crate::query::{
    CondicaoFrame, CondicaoRaio, Consulta, ListarFiltro, ListarRaiosFiltro, Ordem,
};
use crate::raio::raios;
use crate::texto;
use vstd::prelude::*;

verus! {

broadcast use vstd::string::group_string_axioms;

// ---------------------------------------------------------------------------
// Mensagens
// ---------------------------------------------------------------------------

/// Um instante na mensagem: segundos desde 1970-01-01T00:00:00Z e a fração.
#[derive(Clone, Copy, Debug, PartialEq, Eq, Structural)]
pub struct Timestamp {
    pub seconds: i64,
    pub nanos: i32,
}

/// Pedido de `UltimoFrame`.
#[derive(Debug)]
pub struct UltimoFrameRequest {
    pub produto: String,
    pub canal: Option<String>,
    pub fonte: Option<String>,
}

/// Pedido de `ListarFrames`.
#[derive(Debug)]
pub struct ListarFramesRequest {
    pub produto: String,
    pub canal: Option<String>,
    pub fonte: Option<String>,
    pub de: Option<Timestamp>,
    pub ate: Option<Timestamp>,
    pub limite: u32,
    pub cursor: Option<String>,
}

/// Pedido de `ListarRaios`.
#[derive(Debug)]
pub struct ListarRaiosRequest<F> {
    pub fonte: Option<String>,
    pub oeste: Option<F>,
    pub sul: Option<F>,
    pub leste: Option<F>,
    pub norte: Option<F>,
    pub de: Option<Timestamp>,
    pub ate: Option<Timestamp>,
    pub qualidade_max: Option<u32>,
    pub limite: u32,
    pub cursor: Option<String>,
}

/// Um frame do catálogo, com a URL do tile.
#[derive(Debug)]
pub struct Frame {
    pub fonte: String,
    pub produto: String,
    pub canal: Option<String>,
    pub chave_origem: String,
    pub chave_destino: String,
    pub tamanho_bytes: i64,
    pub inicio: Option<Timestamp>,
    pub fim: Option<Timestamp>,
    pub processado_em: Option<Timestamp>,
    pub url: String,
    pub url_expira_em: Option<Timestamp>,
}

/// Resposta de `ListarFrames`.
#[derive(Debug)]
pub struct ListarFramesResponse {
    pub frames: Vec<Frame>,
    pub proximo_cursor: Option<String>,
}

/// Um flash.
#[derive(Debug)]
pub struct Raio<F> {
    pub tempo: Option<Timestamp>,
    pub lat: F,
    pub lon: F,
    pub energia: Option<F>,
    pub area: Option<F>,
    pub qualidade: u32,
}

/// Resposta de `ListarRaios`.
#[derive(Debug)]
pub struct ListarRaiosResponse<F> {
    pub raios: Vec<Raio<F>>,
    pub proximo_cursor: Option<String>,
}

/// Por que um pedido é recusado.
#[derive(Clone, Copy, Debug, PartialEq, Eq, Structural)]
pub enum Falha {
    /// Argumento inválido: o pedido não diz o produto.
    ProdutoObrigatorio,
    /// Argumento inválido: o cursor não é um que o servidor deu.
    CursorInvalido,
    /// Não encontrado: o catálogo não tem o que foi pedido.
    NenhumFrame,
}

impl Falha {
    /// A mensagem que o consumidor recebe.
    pub fn mensagem(&self) -> (r: &'static str)
        ensures
            r@ == (match *self {
                Falha::ProdutoObrigatorio => "produto é obrigatório"@,
                Falha::CursorInvalido => "cursor inválido"@,
                Falha::NenhumFrame => "nenhum frame para o produto/canal"@,
            }),
    {
        match self {
            Falha::ProdutoObrigatorio => "produto é obrigatório",
            Falha::CursorInvalido => "cursor inválido",
            Falha::NenhumFrame => "nenhum frame para o produto/canal",
        }
    }

    /// A falha é do argumento (e não de falta no catálogo)?
    pub fn do_argumento(&self) -> (r: bool)
        ensures
            r <==> *self != Falha::NenhumFrame,
    {
        match self {
            Falha::NenhumFrame => false,
            _ => true,
        }
    }
}

// ---------------------------------------------------------------------------
// Tempo e cursor
// ---------------------------------------------------------------------------

/// O [`Timestamp`] de um instante: segundos arredondados para baixo e a fração.
pub open spec fn carimbo(t: Momento) -> Timestamp {
    Timestamp {
        seconds: (t.nanos as int / 1_000_000_000) as i64,
        nanos: (t.nanos as int % 1_000_000_000) as i32,
    }
}

/// O instante de um [`Timestamp`], em UTC; `None` se fora da faixa de anos.
pub open spec fn instante(ts: Timestamp) -> Option<Momento> {
    let nanos = ts.seconds * 1_000_000_000 + ts.nanos;
    if momento::na_faixa(nanos) {
        Some(momento::em_utc(nanos))
    } else {
        None
    }
}

/// O instante que um cursor marca; `None` se o texto não é um cursor.
pub open spec fn cursor_lido(s: Seq<char>) -> Option<Momento> {
    match texto::le_inteiro(s) {
        Some(n) => if momento::na_faixa(n) {
            Some(momento::em_utc(n))
        } else {
            None
        },
        None => None,
    }
}

/// Momento → [`Timestamp`].
pub fn to_proto_ts(t: Momento) -> (r: Timestamp)
    requires
        t.valido(),
    ensures
        r == carimbo(t),
        r.seconds == t.nanos as int / 1_000_000_000,
        r.nanos == t.nanos as int % 1_000_000_000,
{
    Timestamp {
        seconds: momento::segundos_unix(&t),
        nanos: momento::nanossegundo(&t) as i32,
    }
}

/// [`Timestamp`] → momento em UTC (`None` se fora de faixa).
pub fn from_proto_ts(ts: &Timestamp) -> (r: Option<Momento>)
    ensures
        r == instante(*ts),
        r is Some <==> momento::MIN_NANOS <= ts.seconds * 1_000_000_000 + ts.nanos
            <= momento::MAX_NANOS,
        r is Some ==> r->0.nanos == ts.seconds * 1_000_000_000 + ts.nanos && r->0.deslocamento
            == 0,
{
    let nanos = ts.seconds as i128 * 1_000_000_000 + ts.nanos as i128;
    momento::de_nanos_unix(nanos)
}

/// Cursor opaco = nanossegundos unix do instante, em decimal.
pub fn encode_cursor(t: Momento) -> (r: String)
    requires
        t.valido(),
    ensures
        r@ == texto::inteiro(t.nanos as int),
{
    texto::escreve_inteiro(momento::nanos_unix(&t))
}

/// O instante de um cursor; `None` se o texto não é um inteiro decimal ou o
/// instante está fora de faixa.
pub fn decode_cursor(s: &str) -> (r: Option<Momento>)
    ensures
        r == cursor_lido(s@),
{
    match texto::le_i128(s) {
        Some(n) => momento::de_nanos_unix(n),
        None => None,
    }
}

/// Ida e volta do tempo: o [`Timestamp`] de um instante lê-se como o mesmo
/// instante, em UTC.
pub proof fn lei_timestamp_ida_e_volta(t: Momento)
    requires
        t.valido(),
        t.utc_valido(),
    ensures
        instante(carimbo(t)) == Some(momento::em_utc(t.nanos as int)),
        t.deslocamento == 0 ==> instante(carimbo(t)) == Some(t),
{
    let n = t.nanos as int;
    assert(n == (n / 1_000_000_000) * 1_000_000_000 + n % 1_000_000_000);
}

/// Ida e volta do cursor: o cursor de um instante lê-se como o mesmo instante,
/// em UTC.
pub proof fn lei_cursor_ida_e_volta(t: Momento)
    requires
        t.valido(),
        t.utc_valido(),
    ensures
        cursor_lido(texto::inteiro(t.nanos as int)) == Some(momento::em_utc(t.nanos as int)),
        t.deslocamento == 0 ==> cursor_lido(texto::inteiro(t.nanos as int)) == Some(t),
{
    texto::lema_le_inteiro(t.nanos as int);
}

// ---------------------------------------------------------------------------
// Respostas
// ---------------------------------------------------------------------------

/// O [`Timestamp`] de um instante que pode faltar.
pub open spec fn carimbo_opcional(t: Option<Momento>) -> Option<Timestamp> {
    match t {
        Some(t) => Some(carimbo(t)),
        None => None,
    }
}

fn carimba(t: Option<Momento>) -> (r: Option<Timestamp>)
    requires
        t matches Some(x) ==> x.valido(),
    ensures
        r == carimbo_opcional(t),
{
    match t {
        Some(t) => Some(to_proto_ts(t)),
        None => None,
    }
}

/// `r` é a assinatura de um tile feita em `agora`: a URL e quando expira.
pub open spec fn e_a_assinatura(
    url: Option<String>,
    agora: Momento,
    url_ttl_secs: u64,
    r: (String, Option<Momento>),
) -> bool {
    match url {
        Some(u) => {
            &&& r.0@ == u@
            &&& r.1 matches Some(t)
            &&& t.nanos == agora.nanos + (url_ttl_secs as i64) * 1_000_000_000
            &&& t.deslocamento == agora.deslocamento
        },
        None => r.0@ == ""@ && r.1 is None,
    }
}

/// A URL vale exatamente o tempo configurado, contado de quando foi assinada; sem
/// URL nada expira, e a URL respondida é vazia.
pub proof fn lei_validade_da_url(
    url: Option<String>,
    agora: Momento,
    url_ttl_secs: u64,
    r: (String, Option<Momento>),
)
    requires
        url_ttl_secs <= i64::MAX,
        e_a_assinatura(url, agora, url_ttl_secs, r),
    ensures
        url is Some <==> r.1 is Some,
        url is Some ==> r.1->0.nanos - agora.nanos == url_ttl_secs * 1_000_000_000,
        url is Some ==> r.0@ == url->0@,
        url is None ==> r.0@.len() == 0,
{
    reveal_strlit("");
}

/// A URL assinada de um tile e quando expira. Sem URL (destino local, que não
/// assina), a URL é vazia e nada expira.
pub fn assinatura(url: Option<String>, agora: Momento, url_ttl_secs: u64) -> (r: (
    String,
    Option<Momento>,
))
    requires
        url is Some ==> agora.valido() && momento::na_faixa(
            agora.local() + (url_ttl_secs as i64) * 1_000_000_000,
        ),
    ensures
        match url {
            Some(u) => {
                &&& r.0@ == u@
                &&& r.1 matches Some(t)
                &&& t.nanos == agora.nanos + (url_ttl_secs as i64) * 1_000_000_000
                &&& t.deslocamento == agora.deslocamento
            },
            None => r.0@ == ""@ && r.1 is None,
        },
        e_a_assinatura(url, agora, url_ttl_secs, r),
{
    match url {
        Some(u) => {
            let ttl = #[verifier::truncate] (url_ttl_secs as i64);
            (u, Some(momento::mais_nanos(&agora, ttl as i128 * 1_000_000_000)))
        },
        None => ("".to_owned(), None),
    }
}

/// Os tempos da linha são representáveis.
pub open spec fn tempos_validos(m: entity::Model) -> bool {
    &&& m.inicio.valido()
    &&& m.fim matches Some(t) ==> t.valido()
    &&& m.processado_em.valido()
}

/// O frame `f` descreve a linha `m`, com a URL e a expiração dadas.
pub open spec fn descreve(
    f: Frame,
    m: entity::Model,
    url: Seq<char>,
    expira: Option<Momento>,
) -> bool {
    &&& f.fonte@ == m.fonte@
    &&& f.produto@ == m.produto@
    &&& f.canal == m.canal
    &&& f.chave_origem@ == m.chave_origem@
    &&& f.chave_destino@ == m.chave_destino@
    &&& f.tamanho_bytes == m.tamanho_bytes
    &&& f.inicio == Some(carimbo(m.inicio))
    &&& f.fim == carimbo_opcional(m.fim)
    &&& f.processado_em == Some(carimbo(m.processado_em))
    &&& f.url@ == url
    &&& f.url_expira_em == carimbo_opcional(expira)
}

/// Converte uma linha do catálogo em [`Frame`], com a assinatura do tile.
pub fn modelo_para_frame(m: &entity::Model, assinada: &(String, Option<Momento>)) -> (r: Frame)
    requires
        tempos_validos(*m),
        assinada.1 matches Some(t) ==> t.valido(),
    ensures
        descreve(r, *m, assinada.0@, assinada.1),
        r.inicio is Some,
        r.inicio->0.seconds * 1_000_000_000 + r.inicio->0.nanos == m.inicio.nanos,
        r.processado_em is Some,
        r.processado_em->0.seconds * 1_000_000_000 + r.processado_em->0.nanos
            == m.processado_em.nanos,
        r.fim is Some <==> m.fim is Some,
        r.fim is Some ==> r.fim->0.seconds * 1_000_000_000 + r.fim->0.nanos == m.fim->0.nanos,
        r.url_expira_em is Some <==> assinada.1 is Some,
        r.url_expira_em is Some ==> r.url_expira_em->0.seconds * 1_000_000_000
            + r.url_expira_em->0.nanos == assinada.1->0.nanos,
{
    proof {
        lema_carimbo(m.inicio);
        lema_carimbo(m.processado_em);
        if m.fim is Some {
            lema_carimbo(m.fim->0);
        }
        if assinada.1 is Some {
            lema_carimbo(assinada.1->0);
        }
    }
    Frame {
        fonte: m.fonte.clone(),
        produto: m.produto.clone(),
        canal: m.canal.clone(),
        chave_origem: m.chave_origem.clone(),
        chave_destino: m.chave_destino.clone(),
        tamanho_bytes: m.tamanho_bytes,
        inicio: Some(to_proto_ts(m.inicio)),
        fim: carimba(m.fim),
        processado_em: Some(to_proto_ts(m.processado_em)),
        url: assinada.0.clone(),
        url_expira_em: carimba(assinada.1),
    }
}

/// O que o consumidor lê num frame é o que a linha diz: cada instante, lido de
/// volta da mensagem, é o mesmo instante da linha, e cada texto é o da linha.
pub proof fn lei_frame_da_linha(
    f: Frame,
    m: entity::Model,
    url: Seq<char>,
    expira: Option<Momento>,
)
    requires
        tempos_validos(m),
        expira matches Some(t) ==> t.valido(),
        descreve(f, m, url, expira),
    ensures
        f.inicio is Some,
        f.inicio->0.seconds * 1_000_000_000 + f.inicio->0.nanos == m.inicio.nanos,
        0 <= f.inicio->0.nanos < 1_000_000_000,
        f.fim is Some <==> m.fim is Some,
        f.fim is Some ==> f.fim->0.seconds * 1_000_000_000 + f.fim->0.nanos == m.fim->0.nanos && 0
            <= f.fim->0.nanos < 1_000_000_000,
        f.processado_em is Some,
        f.processado_em->0.seconds * 1_000_000_000 + f.processado_em->0.nanos
            == m.processado_em.nanos,
        0 <= f.processado_em->0.nanos < 1_000_000_000,
        f.url_expira_em is Some <==> expira is Some,
        f.url_expira_em is Some ==> f.url_expira_em->0.seconds * 1_000_000_000
            + f.url_expira_em->0.nanos == expira->0.nanos && 0 <= f.url_expira_em->0.nanos
            < 1_000_000_000,
        f.fonte@ == m.fonte@,
        f.produto@ == m.produto@,
        f.canal == m.canal,
        f.chave_origem@ == m.chave_origem@,
        f.chave_destino@ == m.chave_destino@,
        f.tamanho_bytes == m.tamanho_bytes,
        f.url@ == url,
{
    lema_carimbo(m.inicio);
    lema_carimbo(m.processado_em);
    if m.fim is Some {
        lema_carimbo(m.fim->0);
    }
    if expira is Some {
        lema_carimbo(expira->0);
    }
}

/// O carimbo de um instante soma o instante, com a fração em menos de um segundo.
proof fn lema_carimbo(t: Momento)
    requires
        t.valido(),
    ensures
        carimbo(t).seconds * 1_000_000_000 + carimbo(t).nanos == t.nanos,
        0 <= carimbo(t).nanos < 1_000_000_000,
{
    let n = t.nanos as int;
    assert(n == (n / 1_000_000_000) * 1_000_000_000 + n % 1_000_000_000);
}

/// O início de um frame só depende do início da linha: linhas de mesmo início
/// dão frames de mesmo início, ainda que processadas em outra hora ou com outra
/// URL, e linhas de inícios diferentes dão frames de inícios diferentes.
pub proof fn lei_inicio_do_frame(
    f: Frame,
    g: Frame,
    m: entity::Model,
    n: entity::Model,
    assinada_m: (Seq<char>, Option<Momento>),
    assinada_n: (Seq<char>, Option<Momento>),
)
    requires
        tempos_validos(m),
        tempos_validos(n),
        descreve(f, m, assinada_m.0, assinada_m.1),
        descreve(g, n, assinada_n.0, assinada_n.1),
    ensures
        f.inicio == g.inicio <==> m.inicio.nanos == n.inicio.nanos,
        f.processado_em == g.processado_em <==> m.processado_em.nanos == n.processado_em.nanos,
{
    lema_carimbo(m.inicio);
    lema_carimbo(n.inicio);
    lema_carimbo(m.processado_em);
    lema_carimbo(n.processado_em);
}

/// O flash `r` descreve a linha `m`.
pub open spec fn descreve_raio<F>(r: Raio<F>, m: raios::Model<F>) -> bool {
    &&& r.tempo == Some(carimbo(m.tempo))
    &&& r.lat == m.lat
    &&& r.lon == m.lon
    &&& r.energia == m.energia
    &&& r.area == m.area
    &&& r.qualidade == m.qualidade as u32
}

/// Converte uma linha de `raios` em [`Raio`] (sem assinatura: pontos inline).
pub fn modelo_para_raio<F: Copy>(m: &raios::Model<F>) -> (r: Raio<F>)
    requires
        m.tempo.valido(),
    ensures
        descreve_raio(r, *m),
        r.tempo is Some,
        r.tempo->0.seconds * 1_000_000_000 + r.tempo->0.nanos == m.tempo.nanos,
{
    proof {
        lema_carimbo(m.tempo);
    }
    Raio {
        tempo: Some(to_proto_ts(m.tempo)),
        lat: m.lat,
        lon: m.lon,
        energia: m.energia,
        area: m.area,
        qualidade: #[verifier::truncate] (m.qualidade as u32),
    }
}

/// O que o consumidor lê num flash é o que a linha diz; a qualidade que a linha
/// dá sem sinal chega igual.
pub proof fn lei_raio_da_linha<F>(r: Raio<F>, m: raios::Model<F>)
    requires
        m.tempo.valido(),
        descreve_raio(r, m),
    ensures
        r.tempo is Some,
        r.tempo->0.seconds * 1_000_000_000 + r.tempo->0.nanos == m.tempo.nanos,
        0 <= r.tempo->0.nanos < 1_000_000_000,
        r.lat == m.lat,
        r.lon == m.lon,
        r.energia == m.energia,
        r.area == m.area,
        m.qualidade >= 0 ==> r.qualidade == m.qualidade,
        m.qualidade < 0 ==> r.qualidade == m.qualidade + 0x1_0000_0000,
{
    lema_carimbo(m.tempo);
    let q = m.qualidade;
    assert(q < 0 ==> q as u32 == q + 0x1_0000_0000) by (bit_vector);
}

/// O cursor da próxima página: há um se a página encheu, e marca o tempo da
/// última linha.
pub open spec fn cursor_seguinte(tempos: Seq<Momento>, limite: int, r: Option<String>) -> bool {
    match r {
        Some(c) => {
            &&& tempos.len() == limite
            &&& tempos.len() > 0
            &&& c@ == texto::inteiro(tempos.last().nanos as int)
        },
        None => tempos.len() != limite || tempos.len() == 0,
    }
}

fn proximo_cursor(total: usize, limite: u64, ultimo: Option<Momento>) -> (r: Option<String>)
    requires
        ultimo matches Some(t) ==> t.valido(),
    ensures
        match r {
            Some(c) => {
                &&& total == limite
                &&& ultimo matches Some(t)
                &&& c@ == texto::inteiro(t.nanos as int)
            },
            None => total != limite || ultimo is None,
        },
{
    if total as u64 == limite {
        match ultimo {
            Some(t) => Some(encode_cursor(t)),
            None => None,
        }
    } else {
        None
    }
}

/// O cursor retoma onde a página parou: lido de volta, é o instante da última
/// linha.
pub proof fn lei_cursor_retoma(tempos: Seq<Momento>, limite: int, cursor: String)
    requires
        cursor_seguinte(tempos, limite, Some(cursor)),
        tempos.last().utc_valido(),
    ensures
        cursor_lido(cursor@) == Some(momento::em_utc(tempos.last().nanos as int)),
{
    texto::lema_le_inteiro(tempos.last().nanos as int);
}

/// Os `inicio` das linhas.
pub open spec fn inicios(modelos: Seq<entity::Model>) -> Seq<Momento> {
    modelos.map_values(|m: entity::Model| m.inicio)
}

/// A resposta de uma página de frames: um [`Frame`] por linha, na ordem, e o
/// cursor da próxima página se esta encheu.
pub fn responde_frames(
    modelos: &Vec<entity::Model>,
    assinadas: &Vec<(String, Option<Momento>)>,
    limite: u64,
) -> (r: ListarFramesResponse)
    requires
        assinadas@.len() == modelos@.len(),
        forall|i: int| 0 <= i < modelos@.len() ==> tempos_validos(#[trigger] modelos@[i]),
        forall|i: int|
            0 <= i < assinadas@.len() ==> ((#[trigger] assinadas@[i]).1 matches Some(t)
                ==> t.valido()),
    ensures
        r.frames@.len() == modelos@.len(),
        forall|i: int|
            0 <= i < r.frames@.len() ==> descreve(
                #[trigger] r.frames@[i],
                modelos@[i],
                assinadas@[i].0@,
                assinadas@[i].1,
            ),
        cursor_seguinte(inicios(modelos@), limite as int, r.proximo_cursor),
        r.proximo_cursor is Some <==> modelos@.len() == limite && modelos@.len() > 0,
        r.proximo_cursor is Some ==> r.proximo_cursor->0@ == texto::inteiro(
            modelos@.last().inicio.nanos as int,
        ),
        r.proximo_cursor is Some ==> r.frames@.last().inicio is Some && r.proximo_cursor->0@
            == texto::inteiro(
            r.frames@.last().inicio->0.seconds * 1_000_000_000 + r.frames@.last().inicio->0.nanos,
        ),
{
    let total = modelos.len();
    let ultimo = if total > 0 {
        Some(modelos[total - 1].inicio)
    } else {
        None
    };
    assert(total > 0 ==> inicios(modelos@).last() == modelos@[total - 1].inicio);
    let proximo_cursor = proximo_cursor(total, limite, ultimo);
    let mut frames: Vec<Frame> = Vec::new();
    let mut i: usize = 0;
    while i < modelos.len()
        invariant
            assinadas@.len() == modelos@.len(),
            forall|i: int| 0 <= i < modelos@.len() ==> tempos_validos(#[trigger] modelos@[i]),
            forall|i: int|
                0 <= i < assinadas@.len() ==> ((#[trigger] assinadas@[i]).1 matches Some(t)
                    ==> t.valido()),
            i <= modelos@.len(),
            frames@.len() == i,
            forall|j: int|
                0 <= j < i ==> descreve(
                    #[trigger] frames@[j],
                    modelos@[j],
                    assinadas@[j].0@,
                    assinadas@[j].1,
                ),
        decreases modelos@.len() - i,
    {
        frames.push(modelo_para_frame(&modelos[i], &assinadas[i]));
        i = i + 1;
    }
    proof {
        if total > 0 {
            let k = total - 1;
            assert(tempos_validos(modelos@[k]));
            assert(assinadas@[k].1 is Some ==> assinadas@[k].1->0.valido());
            lei_frame_da_linha(frames@[k], modelos@[k], assinadas@[k].0@, assinadas@[k].1);
        }
    }
    ListarFramesResponse { frames, proximo_cursor }
}

/// Os `tempo` das linhas.
pub open spec fn tempos<F>(modelos: Seq<raios::Model<F>>) -> Seq<Momento> {
    modelos.map_values(|m: raios::Model<F>| m.tempo)
}

/// A resposta de uma página de raios: um [`Raio`] por linha, na ordem, e o
/// cursor da próxima página se esta encheu.
pub fn responde_raios<F: Copy>(
    modelos: &Vec<raios::Model<F>>,
    limite: u64,
) -> (r: ListarRaiosResponse<F>)
    requires
        forall|i: int| 0 <= i < modelos@.len() ==> (#[trigger] modelos@[i]).tempo.valido(),
    ensures
        r.raios@.len() == modelos@.len(),
        forall|i: int|
            0 <= i < r.raios@.len() ==> descreve_raio(#[trigger] r.raios@[i], modelos@[i]),
        cursor_seguinte(tempos(modelos@), limite as int, r.proximo_cursor),
        r.proximo_cursor is Some <==> modelos@.len() == limite && modelos@.len() > 0,
        r.proximo_cursor is Some ==> r.proximo_cursor->0@ == texto::inteiro(
            modelos@.last().tempo.nanos as int,
        ),
        r.proximo_cursor is Some ==> r.raios@.last().tempo is Some && r.proximo_cursor->0@
            == texto::inteiro(
            r.raios@.last().tempo->0.seconds * 1_000_000_000 + r.raios@.last().tempo->0.nanos,
        ),
{
    let total = modelos.len();
    let ultimo = if total > 0 {
        Some(modelos[total - 1].tempo)
    } else {
        None
    };
    assert(total > 0 ==> tempos(modelos@).last() == modelos@[total - 1].tempo);
    let proximo_cursor = proximo_cursor(total, limite, ultimo);
    let mut raios: Vec<Raio<F>> = Vec::new();
    let mut i: usize = 0;
    while i < modelos.len()
        invariant
            forall|i: int| 0 <= i < modelos@.len() ==> (#[trigger] modelos@[i]).tempo.valido(),
            i <= modelos@.len(),
            raios@.len() == i,
            forall|j: int| 0 <= j < i ==> descreve_raio(#[trigger] raios@[j], modelos@[j]),
        decreases modelos@.len() - i,
    {
        raios.push(modelo_para_raio(&modelos[i]));
        i = i + 1;
    }
    proof {
        if total > 0 {
            let k = total - 1;
            assert(modelos@[k].tempo.valido());
            lei_raio_da_linha(raios@[k], modelos@[k]);
        }
    }
    ListarRaiosResponse { raios, proximo_cursor }
}

/// Numa página cheia de frames, o cursor marca o instante que o último frame
/// respondido traz como início.
pub proof fn lei_cursor_da_pagina_de_frames(
    modelos: Seq<entity::Model>,
    frames: Seq<Frame>,
    url: Seq<char>,
    expira: Option<Momento>,
    limite: int,
    cursor: String,
)
    requires
        frames.len() == modelos.len(),
        modelos.len() > 0 ==> tempos_validos(modelos.last()) && modelos.last().inicio.utc_valido(),
        modelos.len() > 0 ==> descreve(frames.last(), modelos.last(), url, expira),
        cursor_seguinte(inicios(modelos), limite, Some(cursor)),
    ensures
        frames.len() == limite,
        frames.last().inicio is Some,
        cursor_lido(cursor@) is Some,
        cursor_lido(cursor@)->0.nanos == frames.last().inicio->0.seconds * 1_000_000_000
            + frames.last().inicio->0.nanos,
{
    assert(inicios(modelos).last() == modelos.last().inicio);
    lei_cursor_retoma(inicios(modelos), limite, cursor);
    lema_carimbo(modelos.last().inicio);
}

/// Numa página cheia de raios, o cursor marca o instante que o último flash
/// respondido traz.
pub proof fn lei_cursor_da_pagina_de_raios<F>(
    modelos: Seq<raios::Model<F>>,
    respondidos: Seq<Raio<F>>,
    limite: int,
    cursor: String,
)
    requires
        respondidos.len() == modelos.len(),
        modelos.len() > 0 ==> modelos.last().tempo.valido() && modelos.last().tempo.utc_valido(),
        modelos.len() > 0 ==> descreve_raio(respondidos.last(), modelos.last()),
        cursor_seguinte(tempos(modelos), limite, Some(cursor)),
    ensures
        respondidos.len() == limite,
        respondidos.last().tempo is Some,
        cursor_lido(cursor@) is Some,
        cursor_lido(cursor@)->0.nanos == respondidos.last().tempo->0.seconds * 1_000_000_000
            + respondidos.last().tempo->0.nanos,
{
    assert(tempos(modelos).last() == modelos.last().tempo);
    lei_cursor_retoma(tempos(modelos), limite, cursor);
    lema_carimbo(modelos.last().tempo);
}

// ---------------------------------------------------------------------------
// Pedidos
// ---------------------------------------------------------------------------

/// A fonte pedida, ou a do coletor se o pedido não diz.
pub open spec fn fonte_pedida(fonte: Option<String>) -> Seq<char> {
    match fonte {
        Some(s) => s@,
        None => crate::FONTE@,
    }
}

/// O instante pedido; `None` se o pedido não diz ou se está fora de faixa.
pub open spec fn instante_pedido(ts: Option<Timestamp>) -> Option<Momento> {
    match ts {
        Some(ts) => instante(ts),
        None => None,
    }
}

/// O cursor pedido, se o pedido traz um.
pub open spec fn cursor_pedido(cursor: Option<String>) -> Option<Momento> {
    match cursor {
        Some(s) => cursor_lido(s@),
        None => None,
    }
}

/// O canal pedido é o da linha (sem canal, qualquer um).
pub open spec fn canal_pedido(canal: Option<String>, m: entity::Model) -> bool {
    canal matches Some(c) ==> (m.canal matches Some(d) && d@ == c@)
}

/// Quantas linhas uma página tem: 0 = o teto do servidor; senão, o pedido até o
/// teto.
pub open spec fn limite_da_pagina(limite: u32, teto: u32) -> u32 {
    if limite == 0 || teto < limite {
        teto
    } else {
        limite
    }
}

fn limite_efetivo(limite: u32, teto: u32) -> (r: u64)
    ensures
        r == limite_da_pagina(limite, teto),
{
    if limite == 0 || teto < limite {
        teto as u64
    } else {
        limite as u64
    }
}

fn fonte_ou_padrao(fonte: &Option<String>) -> (r: &str)
    ensures
        r@ == fonte_pedida(*fonte),
{
    match fonte {
        Some(s) => s.as_str(),
        None => crate::FONTE,
    }
}

fn le_instante(ts: &Option<Timestamp>) -> (r: Option<Momento>)
    ensures
        r == instante_pedido(*ts),
{
    match ts {
        Some(ts) => from_proto_ts(ts),
        None => None,
    }
}

fn le_cursor(cursor: &Option<String>) -> (r: Result<Option<Momento>, Falha>)
    ensures
        r == (if *cursor is Some && cursor_pedido(*cursor) is None {
            Err::<Option<Momento>, Falha>(Falha::CursorInvalido)
        } else {
            Ok(cursor_pedido(*cursor))
        }),
{
    match cursor {
        Some(s) => match decode_cursor(s.as_str()) {
            Some(t) => Ok(Some(t)),
            None => Err(Falha::CursorInvalido),
        },
        None => Ok(None),
    }
}

/// A linha é de um frame que o pedido quer.
pub open spec fn frame_pedido(req: ListarFramesRequest, m: entity::Model) -> bool {
    &&& m.fonte@ == fonte_pedida(req.fonte)
    &&& m.produto@ == req.produto@
    &&& canal_pedido(req.canal, m)
    &&& query::na_janela(
        m.inicio,
        instante_pedido(req.de),
        instante_pedido(req.ate),
        cursor_pedido(req.cursor),
    )
}

/// A maior qualidade pedida (sem pedido, 0 = só bons). O que passa da maior
/// qualidade que uma linha pode ter aceita todas.
pub open spec fn qualidade_pedida(qualidade_max: Option<u32>) -> i16 {
    match qualidade_max {
        Some(q) => if q > 32767 {
            32767
        } else {
            q as i16
        },
        None => 0,
    }
}

/// A linha passa na qualidade pedida exatamente se a sua não é maior; pedir mais
/// nunca tira um flash da resposta.
pub proof fn lei_qualidade_maxima(a: u32, b: u32, qualidade: i16)
    ensures
        qualidade <= qualidade_pedida(Some(a)) <==> qualidade <= a,
        a <= b && qualidade <= qualidade_pedida(Some(a)) ==> qualidade <= qualidade_pedida(Some(b)),
{
}

/// A linha é de um flash que o pedido quer. O BBOX só vale se os quatro lados
/// vierem; senão, toda a cobertura. `entre(x, a, b)` diz se `x` está entre `a` e
/// `b`.
pub open spec fn raio_pedido<F>(
    req: ListarRaiosRequest<F>,
    entre: spec_fn(F, F, F) -> bool,
    m: raios::Model<F>,
) -> bool {
    &&& m.fonte@ == fonte_pedida(req.fonte)
    &&& m.qualidade <= qualidade_pedida(req.qualidade_max)
    &&& match (req.oeste, req.sul, req.leste, req.norte) {
        (Some(o), Some(s), Some(l), Some(n)) => entre(m.lon, o, l) && entre(m.lat, s, n),
        _ => true,
    }
    &&& query::na_janela(
        m.tempo,
        instante_pedido(req.de),
        instante_pedido(req.ate),
        cursor_pedido(req.cursor),
    )
}

/// O que um pedido de frames quer, dito nos campos da mensagem: a fonte (ou a do
/// coletor), o produto, o canal se pedido, `inicio` não antes de `de` e não
/// depois de `ate` (os que estão na faixa de anos), e antes do cursor.
pub proof fn lei_frames_do_pedido(req: ListarFramesRequest, m: entity::Model)
    requires
        req.cursor is Some ==> cursor_lido(req.cursor->0@) is Some,
    ensures
        frame_pedido(req, m) <==> {
            &&& m.fonte@ == (match req.fonte {
                Some(s) => s@,
                None => crate::FONTE@,
            })
            &&& m.produto@ == req.produto@
            &&& req.canal is Some ==> m.canal is Some && m.canal->0@ == req.canal->0@
            &&& req.de is Some && momento::MIN_NANOS <= req.de->0.seconds * 1_000_000_000
                + req.de->0.nanos <= momento::MAX_NANOS ==> req.de->0.seconds * 1_000_000_000
                + req.de->0.nanos <= m.inicio.nanos
            &&& req.ate is Some && momento::MIN_NANOS <= req.ate->0.seconds * 1_000_000_000
                + req.ate->0.nanos <= momento::MAX_NANOS ==> m.inicio.nanos <= req.ate->0.seconds
                * 1_000_000_000 + req.ate->0.nanos
            &&& req.cursor is Some ==> m.inicio.nanos < texto::le_inteiro(req.cursor->0@)->0
        },
{
}

/// O que um pedido de raios quer, dito nos campos da mensagem: a fonte (ou a do
/// coletor), a qualidade até a pedida, o BBOX se os quatro lados vieram, `tempo`
/// não antes de `de` e não depois de `ate` (os que estão na faixa de anos), e
/// antes do cursor.
pub proof fn lei_raios_do_pedido<F>(
    req: ListarRaiosRequest<F>,
    entre: spec_fn(F, F, F) -> bool,
    m: raios::Model<F>,
)
    requires
        req.cursor is Some ==> cursor_lido(req.cursor->0@) is Some,
    ensures
        raio_pedido(req, entre, m) <==> {
            &&& m.fonte@ == (match req.fonte {
                Some(s) => s@,
                None => crate::FONTE@,
            })
            &&& m.qualidade <= (match req.qualidade_max {
                Some(q) => q as int,
                None => 0,
            })
            &&& req.oeste is Some && req.sul is Some && req.leste is Some && req.norte is Some
                ==> entre(m.lon, req.oeste->0, req.leste->0) && entre(
                m.lat,
                req.sul->0,
                req.norte->0,
            )
            &&& req.de is Some && momento::MIN_NANOS <= req.de->0.seconds * 1_000_000_000
                + req.de->0.nanos <= momento::MAX_NANOS ==> req.de->0.seconds * 1_000_000_000
                + req.de->0.nanos <= m.tempo.nanos
            &&& req.ate is Some && momento::MIN_NANOS <= req.ate->0.seconds * 1_000_000_000
                + req.ate->0.nanos <= momento::MAX_NANOS ==> m.tempo.nanos <= req.ate->0.seconds
                * 1_000_000_000 + req.ate->0.nanos
            &&& req.cursor is Some ==> m.tempo.nanos < texto::le_inteiro(req.cursor->0@)->0
        },
{
}

/// Um texto só serve de cursor se escreve um inteiro na faixa de anos, e marca
/// esse instante.
pub proof fn lei_cursor_aceito(s: Seq<char>)
    ensures
        cursor_lido(s) is Some <==> texto::le_inteiro(s) is Some && momento::MIN_NANOS
            <= texto::le_inteiro(s)->0 <= momento::MAX_NANOS,
        cursor_lido(s) is Some ==> cursor_lido(s)->0.nanos == texto::le_inteiro(s)->0
            && cursor_lido(s)->0.deslocamento == 0,
{
}

/// O tamanho da página: nunca passa do teto; o pedido que cabe nele é atendido;
/// não pedir, ou pedir além, é pedir o teto.
pub proof fn lei_limite_da_pagina(limite: u32, teto: u32)
    ensures
        limite_da_pagina(limite, teto) <= teto,
        0 < limite <= teto ==> limite_da_pagina(limite, teto) == limite,
        limite == 0 || limite >= teto ==> limite_da_pagina(limite, teto) == teto,
{
}

/// A próxima página de frames: com o cursor que a resposta deu, o pedido quer o
/// mesmo de antes, menos o que não é anterior à última linha vista.
pub proof fn lei_proxima_pagina_de_frames(
    req: ListarFramesRequest,
    vistos: Seq<Momento>,
    limite: int,
    cursor: String,
    m: entity::Model,
)
    requires
        cursor_seguinte(vistos, limite, Some(cursor)),
        vistos.last().utc_valido(),
    ensures
        frame_pedido(ListarFramesRequest { cursor: Some(cursor), ..req }, m) <==> frame_pedido(
            ListarFramesRequest { cursor: None, ..req },
            m,
        ) && m.inicio.nanos < vistos.last().nanos,
{
    lei_cursor_retoma(vistos, limite, cursor);
}

/// A próxima página de raios: com o cursor que a resposta deu, o pedido quer o
/// mesmo de antes, menos o que não é anterior ao último flash visto.
pub proof fn lei_proxima_pagina_de_raios<F>(
    req: ListarRaiosRequest<F>,
    entre: spec_fn(F, F, F) -> bool,
    vistos: Seq<Momento>,
    limite: int,
    cursor: String,
    m: raios::Model<F>,
)
    requires
        cursor_seguinte(vistos, limite, Some(cursor)),
        vistos.last().utc_valido(),
    ensures
        raio_pedido(ListarRaiosRequest { cursor: Some(cursor), ..req }, entre, m) <==> raio_pedido(
            ListarRaiosRequest { cursor: None, ..req },
            entre,
            m,
        ) && m.tempo.nanos < vistos.last().nanos,
{
    lei_cursor_retoma(vistos, limite, cursor);
}

/// O servidor do catálogo: o que a configuração diz das respostas.
#[derive(Debug)]
pub struct CatalogoService {
    /// Validade das URLs assinadas, em segundos.
    pub url_ttl_secs: u64,
    /// Teto de linhas por página.
    pub limite_pagina: u32,
}

impl CatalogoService {
    /// O servidor que a configuração pede.
    pub fn novo(config: &Config) -> (r: CatalogoService)
        ensures
            r.url_ttl_secs == config.grpc.url_ttl_secs,
            r.limite_pagina == config.grpc.limite_pagina,
    {
        CatalogoService {
            url_ttl_secs: config.grpc.url_ttl_secs,
            limite_pagina: config.grpc.limite_pagina,
        }
    }

    /// `UltimoFrame`: a consulta a fazer, ou a recusa.
    pub fn ultimo_frame(&self, req: &UltimoFrameRequest) -> (r: Result<
        Consulta<CondicaoFrame>,
        Falha,
    >)
        ensures
            r is Err <==> req.produto@.len() == 0,
            match r {
                Ok(c) => {
                    &&& c.limite == 1
                    &&& c.ordem == Ordem::Decrescente
                    &&& forall|m: entity::Model| #[trigger]
                        query::aceita_frame(c.condicoes@, m) <==> m.fonte@ == fonte_pedida(
                            req.fonte,
                        ) && m.produto@ == req.produto@ && canal_pedido(req.canal, m)
                    &&& forall|m: entity::Model| #[trigger]
                        query::aceita_frame(c.condicoes@, m) <==> {
                            &&& m.fonte@ == (match req.fonte {
                                Some(s) => s@,
                                None => crate::FONTE@,
                            })
                            &&& m.produto@ == req.produto@
                            &&& req.canal is Some ==> m.canal is Some && m.canal->0@
                                == req.canal->0@
                        }
                },
                Err(e) => e == Falha::ProdutoObrigatorio,
            },
    {
        if req.produto.as_str().is_empty() {
            return Err(Falha::ProdutoObrigatorio);
        }
        let canal = match &req.canal {
            Some(c) => Some(c.as_str()),
            None => None,
        };
        Ok(query::ultimo_frame(fonte_ou_padrao(&req.fonte), req.produto.as_str(), canal))
    }

    /// `UltimoFrame`: a linha que o banco achou, ou a recusa se não achou.
    pub fn frame_achado(&self, achado: Option<entity::Model>) -> (r: Result<entity::Model, Falha>)
        ensures
            r == (match achado {
                Some(m) => Ok(m),
                None => Err::<entity::Model, Falha>(Falha::NenhumFrame),
            }),
    {
        match achado {
            Some(m) => Ok(m),
            None => Err(Falha::NenhumFrame),
        }
    }

    /// `ListarFrames`: a consulta a fazer, ou a recusa.
    pub fn listar_frames(&self, req: &ListarFramesRequest) -> (r: Result<
        Consulta<CondicaoFrame>,
        Falha,
    >)
        ensures
            r is Err <==> req.produto@.len() == 0 || (req.cursor is Some && cursor_pedido(
                req.cursor,
            ) is None),
            r is Ok ==> req.produto@.len() > 0,
            r is Ok && req.cursor is Some ==> texto::le_inteiro(req.cursor->0@) is Some,
            match r {
                Ok(c) => {
                    &&& c.limite == limite_da_pagina(req.limite, self.limite_pagina)
                    &&& c.ordem == Ordem::Decrescente
                    &&& forall|m: entity::Model| #[trigger]
                        query::aceita_frame(c.condicoes@, m) <==> frame_pedido(*req, m)
                    &&& forall|m: entity::Model| #[trigger]
                        query::aceita_frame(c.condicoes@, m) <==> {
                            &&& m.fonte@ == (match req.fonte {
                                Some(s) => s@,
                                None => crate::FONTE@,
                            })
                            &&& m.produto@ == req.produto@
                            &&& req.canal is Some ==> m.canal is Some && m.canal->0@ == req.canal->0@
                            &&& req.de is Some && momento::MIN_NANOS <= req.de->0.seconds * 1_000_000_000
                                + req.de->0.nanos <= momento::MAX_NANOS ==> req.de->0.seconds * 1_000_000_000
                                + req.de->0.nanos <= m.inicio.nanos
                            &&& req.ate is Some && momento::MIN_NANOS <= req.ate->0.seconds * 1_000_000_000
                                + req.ate->0.nanos <= momento::MAX_NANOS ==> m.inicio.nanos <= req.ate->0.seconds
                                * 1_000_000_000 + req.ate->0.nanos
                            &&& req.cursor is Some ==> m.inicio.nanos < texto::le_inteiro(req.cursor->0@)->0
                        }
                    &&& c.limite <= self.limite_pagina
                    &&& 0 < req.limite <= self.limite_pagina ==> c.limite == req.limite
                    &&& req.limite == 0 || req.limite >= self.limite_pagina ==> c.limite
                        == self.limite_pagina
                },
                Err(e) => e == (if req.produto@.len() == 0 {
                    Falha::ProdutoObrigatorio
                } else {
                    Falha::CursorInvalido
                }),
            },
    {
        if req.produto.as_str().is_empty() {
            return Err(Falha::ProdutoObrigatorio);
        }
        let cursor = match le_cursor(&req.cursor) {
            Ok(c) => c,
            Err(e) => return Err(e),
        };
        let canal = match &req.canal {
            Some(c) => Some(c.as_str()),
            None => None,
        };
        let filtro = ListarFiltro {
            fonte: fonte_ou_padrao(&req.fonte),
            produto: req.produto.as_str(),
            canal,
            de: le_instante(&req.de),
            ate: le_instante(&req.ate),
            cursor,
            limite: limite_efetivo(req.limite, self.limite_pagina),
        };
        let c = query::listar_frames(&filtro);
        assert forall|m: entity::Model| #[trigger]
            query::aceita_frame(c.condicoes@, m) <==> frame_pedido(*req, m) by {
            assert(query::aceita_frame(c.condicoes@, m) <==> query::casa_frame(filtro, m));
        }
        Ok(c)
    }

    /// `ListarRaios`: a consulta a fazer, ou a recusa.
    pub fn listar_raios<F: Copy>(&self, req: &ListarRaiosRequest<F>) -> (r: Result<
        Consulta<CondicaoRaio<F>>,
        Falha,
    >)
        ensures
            r is Err <==> req.cursor is Some && cursor_pedido(req.cursor) is None,
            r is Ok && req.cursor is Some ==> texto::le_inteiro(req.cursor->0@) is Some,
            match r {
                Ok(c) => {
                    &&& c.limite == limite_da_pagina(req.limite, self.limite_pagina)
                    &&& c.ordem == Ordem::Decrescente
                    &&& forall|entre: spec_fn(F, F, F) -> bool, m: raios::Model<F>| #[trigger]
                        query::aceita_raio(c.condicoes@, entre, m) <==> raio_pedido(*req, entre, m)
                    &&& forall|entre: spec_fn(F, F, F) -> bool, m: raios::Model<F>| #[trigger]
                        query::aceita_raio(c.condicoes@, entre, m) <==> {
                            &&& m.fonte@ == (match req.fonte {
                                Some(s) => s@,
                                None => crate::FONTE@,
                            })
                            &&& m.qualidade <= (match req.qualidade_max {
                                Some(q) => q as int,
                                None => 0,
                            })
                            &&& req.oeste is Some && req.sul is Some && req.leste is Some && req.norte is Some
                                ==> entre(m.lon, req.oeste->0, req.leste->0) && entre(
                                m.lat,
                                req.sul->0,
                                req.norte->0,
                            )
                            &&& req.de is Some && momento::MIN_NANOS <= req.de->0.seconds * 1_000_000_000
                                + req.de->0.nanos <= momento::MAX_NANOS ==> req.de->0.seconds * 1_000_000_000
                                + req.de->0.nanos <= m.tempo.nanos
                            &&& req.ate is Some && momento::MIN_NANOS <= req.ate->0.seconds * 1_000_000_000
                                + req.ate->0.nanos <= momento::MAX_NANOS ==> m.tempo.nanos <= req.ate->0.seconds
                                * 1_000_000_000 + req.ate->0.nanos
                            &&& req.cursor is Some ==> m.tempo.nanos < texto::le_inteiro(req.cursor->0@)->0
                        }
                    &&& c.limite <= self.limite_pagina
                    &&& 0 < req.limite <= self.limite_pagina ==> c.limite == req.limite
                    &&& req.limite == 0 || req.limite >= self.limite_pagina ==> c.limite
                        == self.limite_pagina
                },
                Err(e) => e == Falha::CursorInvalido,
            },
    {
        let cursor = match le_cursor(&req.cursor) {
            Ok(c) => c,
            Err(e) => return Err(e),
        };
        let bbox = match (req.oeste, req.sul, req.leste, req.norte) {
            (Some(o), Some(s), Some(l), Some(n)) => Some([o, s, l, n]),
            _ => None,
        };
        let qualidade_max: i16 = match req.qualidade_max {
            Some(q) => if q > 32767 {
                32767
            } else {
                q as i16
            },
            None => 0,
        };
        let filtro = ListarRaiosFiltro {
            fonte: fonte_ou_padrao(&req.fonte),
            bbox,
            de: le_instante(&req.de),
            ate: le_instante(&req.ate),
            qualidade_max,
            cursor,
            limite: limite_efetivo(req.limite, self.limite_pagina),
        };
        let c = query::listar_raios(&filtro);
        assert forall|entre: spec_fn(F, F, F) -> bool, m: raios::Model<F>| #[trigger]
            query::aceita_raio(c.condicoes@, entre, m) <==> raio_pedido(*req, entre, m) by {
            assert(query::aceita_raio(c.condicoes@, entre, m) <==> query::casa_raio(
                filtro,
                entre,
                m,
            ));
        }
        Ok(c)
    }
}

} // verus!
