//! Estado híbrido: catálogo durável no Postgres e cache quente local do dedupe.
//!
//! Aqui ficam as regras: a chave do cache, o schema aceito, o DDL, o que gravar
//! e quando marcar. A chave só entra no cache depois que a linha do catálogo
//! existe.

use crate::config::DatabaseConfig;
use crate::entity;
use crate::momento;
use crate::momento::Momento;
use crate::raio::{arquivos, raios, Flash};
use crate::texto;
use vstd::prelude::*;

verus! {

broadcast use vstd::string::group_string_axioms;

/// Janela de hidratação do cache no boot, em horas.
pub const HYDRATE_WINDOW_HOURS: i64 = 48;

/// Dados de um frame catalogado (o que o pipeline grava no sucesso).
#[derive(Debug)]
pub struct FrameRecord {
    pub fonte: String,
    pub produto: String,
    pub canal: Option<String>,
    pub chave_origem: String,
    pub chave_destino: String,
    pub tamanho_bytes: i64,
    pub inicio: Momento,
    pub fim: Option<Momento>,
}

// ---------------------------------------------------------------------------
// Cache de dedupe
// ---------------------------------------------------------------------------

/// A chave do cache: `fonte\0chave_origem`.
pub open spec fn chave_cache(fonte: Seq<char>, chave_origem: Seq<char>) -> Seq<char> {
    fonte.push('\0') + chave_origem
}

/// Chave do cache: `fonte\0chave_origem` (escopo por fonte, multi-fonte).
pub fn cache_key(fonte: &str, chave_origem: &str) -> (r: String)
    ensures
        r@ == chave_cache(fonte@, chave_origem@),
        r@.len() == fonte@.len() + 1 + chave_origem@.len(),
        r@.take(fonte@.len() as int) == fonte@,
        r@[fonte@.len() as int] == '\0',
        r@.skip(fonte@.len() as int + 1) == chave_origem@,
{
    proof {
        lei_chave_do_cache(fonte@, chave_origem@);
    }
    let mut s = fonte.to_owned();
    s.push('\0');
    s.append(chave_origem);
    s
}

/// Na chave do cache leem-se a fonte inteira, o separador e a chave inteira,
/// nessa ordem e nada mais.
pub proof fn lei_chave_do_cache(fonte: Seq<char>, chave_origem: Seq<char>)
    ensures
        chave_cache(fonte, chave_origem).len() == fonte.len() + 1 + chave_origem.len(),
        chave_cache(fonte, chave_origem).take(fonte.len() as int) == fonte,
        chave_cache(fonte, chave_origem)[fonte.len() as int] == '\0',
        chave_cache(fonte, chave_origem).skip(fonte.len() as int + 1) == chave_origem,
{
    let x = chave_cache(fonte, chave_origem);
    assert(x.take(fonte.len() as int) =~= fonte);
    assert(x.skip(fonte.len() as int + 1) =~= chave_origem);
}

/// Objetos diferentes têm chaves de cache diferentes: marcar um como feito nunca
/// faz outro parecer feito. Vale para fontes sem o separador `\0`.
pub proof fn lei_cache_sem_colisao(
    fonte_a: Seq<char>,
    chave_a: Seq<char>,
    fonte_b: Seq<char>,
    chave_b: Seq<char>,
)
    requires
        !fonte_a.contains('\0'),
        !fonte_b.contains('\0'),
        chave_cache(fonte_a, chave_a) == chave_cache(fonte_b, chave_b),
    ensures
        fonte_a == fonte_b,
        chave_a == chave_b,
{
    let x = chave_cache(fonte_a, chave_a);
    let n = fonte_a.len() as int;
    let m = fonte_b.len() as int;
    assert(x[n] == '\0');
    assert(x[m] == '\0');
    if n < m {
        assert(fonte_b[n] == x[n]);
    } else if m < n {
        assert(fonte_a[m] == x[m]);
    }
    assert(fonte_a =~= x.take(n));
    assert(fonte_b =~= x.take(n));
    assert(chave_a =~= x.skip(n + 1));
    assert(chave_b =~= x.skip(n + 1));
}

/// Dedupe: marcar um objeto faz dele um objeto feito e não muda o que se sabe
/// dos outros da mesma fonte.
pub proof fn lei_dedupe(cache: Set<Seq<char>>, fonte: Seq<char>, marcado: Seq<char>)
    ensures
        forall|chave: Seq<char>|
            cache.insert(chave_cache(fonte, marcado)).contains(#[trigger] chave_cache(fonte, chave))
                <==> chave == marcado || cache.contains(chave_cache(fonte, chave)),
{
    assert forall|chave: Seq<char>|
        chave_cache(fonte, marcado) == #[trigger] chave_cache(fonte, chave) implies chave
        == marcado by {
        let n = fonte.len() as int;
        assert(marcado =~= chave_cache(fonte, marcado).skip(n + 1));
        assert(chave =~= chave_cache(fonte, chave).skip(n + 1));
    }
}

/// O instante a partir do qual o catálogo entra no cache no boot.
pub fn corte_hidratacao(agora: Momento) -> (r: Momento)
    requires
        agora.valido(),
        momento::na_faixa(agora.local() - HYDRATE_WINDOW_HOURS * momento::NANOS_HORA),
    ensures
        r.nanos == agora.nanos - 48 * momento::NANOS_HORA,
        r.deslocamento == agora.deslocamento,
{
    momento::menos_horas(&agora, HYDRATE_WINDOW_HOURS)
}

/// O que o catálogo sabe de um objeto processado (linha de `frames` ou de
/// `raios_arquivos`).
#[derive(Debug)]
pub struct Processado {
    pub fonte: String,
    pub chave_origem: String,
    pub processado_em: Momento,
}

/// O objeto foi processado depois do corte: há menos de 48 horas.
pub open spec fn recente(p: Processado, agora: Momento) -> bool {
    p.processado_em.nanos > agora.nanos - 48 * momento::NANOS_HORA
}

/// Uma linha processada em `processado_em` entra no cache do boot?
pub fn hidrata(processado_em: Momento, agora: Momento) -> (r: bool)
    requires
        agora.valido(),
        momento::na_faixa(agora.local() - HYDRATE_WINDOW_HOURS * momento::NANOS_HORA),
    ensures
        r <==> processado_em.nanos > agora.nanos - 48 * momento::NANOS_HORA,
{
    processado_em.nanos > corte_hidratacao(agora).nanos
}

/// As chaves do cache das linhas recentes, na ordem.
pub open spec fn chaves_recentes(linhas: Seq<Processado>, agora: Momento) -> Seq<Seq<char>>
    decreases linhas.len(),
{
    if linhas.len() == 0 {
        Seq::<Seq<char>>::empty()
    } else {
        let antes = chaves_recentes(linhas.drop_last(), agora);
        if recente(linhas.last(), agora) {
            antes.push(chave_cache(linhas.last().fonte@, linhas.last().chave_origem@))
        } else {
            antes
        }
    }
}

fn chaves_da_tabela(linhas: &Vec<Processado>, agora: Momento) -> (r: Vec<String>)
    requires
        agora.valido(),
        momento::na_faixa(agora.local() - HYDRATE_WINDOW_HOURS * momento::NANOS_HORA),
    ensures
        texto::textos(r@) == chaves_recentes(linhas@, agora),
{
    let mut r: Vec<String> = Vec::new();
    let mut i: usize = 0;
    assert(texto::textos(r@) =~= chaves_recentes(linhas@.take(0), agora));
    while i < linhas.len()
        invariant
            agora.valido(),
            momento::na_faixa(agora.local() - HYDRATE_WINDOW_HOURS * momento::NANOS_HORA),
            i <= linhas@.len(),
            texto::textos(r@) == chaves_recentes(linhas@.take(i as int), agora),
        decreases linhas@.len() - i,
    {
        let l = &linhas[i];
        let ghost antes = texto::textos(r@);
        proof {
            let t = linhas@.take(i + 1);
            assert(t.drop_last() =~= linhas@.take(i as int));
            assert(t.last() == linhas@[i as int]);
        }
        if hidrata(l.processado_em, agora) {
            r.push(cache_key(l.fonte.as_str(), l.chave_origem.as_str()));
            assert(texto::textos(r@) =~= antes.push(chave_cache(l.fonte@, l.chave_origem@)));
        }
        i = i + 1;
    }
    assert(linhas@.take(i as int) =~= linhas@);
    r
}

/// As chaves a carregar no cache no boot: as dos objetos processados na janela
/// recente, dos dois catálogos.
pub fn chaves_a_hidratar(
    frames: &Vec<Processado>,
    arquivos: &Vec<Processado>,
    agora: Momento,
) -> (r: Vec<String>)
    requires
        agora.valido(),
        momento::na_faixa(agora.local() - HYDRATE_WINDOW_HOURS * momento::NANOS_HORA),
    ensures
        texto::textos(r@) == chaves_recentes(frames@, agora) + chaves_recentes(arquivos@, agora),
        forall|i: int|
            0 <= i < frames@.len() && agora.nanos - (#[trigger] frames@[i]).processado_em.nanos
                < 172_800_000_000_000 ==> texto::textos(r@).contains(
                frames@[i].fonte@ + seq!['\0'] + frames@[i].chave_origem@,
            ),
        forall|i: int|
            0 <= i < arquivos@.len() && agora.nanos - (#[trigger] arquivos@[i]).processado_em.nanos
                < 172_800_000_000_000 ==> texto::textos(r@).contains(
                arquivos@[i].fonte@ + seq!['\0'] + arquivos@[i].chave_origem@,
            ),
{
    let mut r = chaves_da_tabela(frames, agora);
    let mut outras = chaves_da_tabela(arquivos, agora);
    let ghost a = texto::textos(r@);
    let ghost b = texto::textos(outras@);
    r.append(&mut outras);
    assert(texto::textos(r@) =~= a + b);
    assert forall|i: int|
        0 <= i < frames@.len() && agora.nanos - (#[trigger] frames@[i]).processado_em.nanos
            < 172_800_000_000_000 implies texto::textos(r@).contains(
        frames@[i].fonte@ + seq!['\0'] + frames@[i].chave_origem@,
    ) by {
        let chave = frames@[i].fonte@ + seq!['\0'] + frames@[i].chave_origem@;
        lei_janela_de_hidratacao(frames@, agora, chave);
        let k = choose|k: int| 0 <= k < a.len() && a[k] == chave;
        assert((a + b)[k] == chave);
    }
    assert forall|i: int|
        0 <= i < arquivos@.len() && agora.nanos - (#[trigger] arquivos@[i]).processado_em.nanos
            < 172_800_000_000_000 implies texto::textos(r@).contains(
        arquivos@[i].fonte@ + seq!['\0'] + arquivos@[i].chave_origem@,
    ) by {
        let chave = arquivos@[i].fonte@ + seq!['\0'] + arquivos@[i].chave_origem@;
        lei_janela_de_hidratacao(arquivos@, agora, chave);
        let k = choose|k: int| 0 <= k < b.len() && b[k] == chave;
        assert((a + b)[a.len() + k] == chave);
    }
    r
}

/// Alguma linha recente tem essa chave de cache.
pub open spec fn ha_recente(linhas: Seq<Processado>, agora: Momento, chave: Seq<char>) -> bool {
    exists|i: int|
        0 <= i < linhas.len() && recente(#[trigger] linhas[i], agora) && chave_cache(
            linhas[i].fonte@,
            linhas[i].chave_origem@,
        ) == chave
}

/// Hidratar acrescenta ao cache exatamente os objetos que um dos dois catálogos
/// processou na janela recente; nada sai do cache, e nada mais antigo entra.
pub proof fn lei_hidratacao(
    cache: Set<Seq<char>>,
    frames: Seq<Processado>,
    arquivos: Seq<Processado>,
    agora: Momento,
)
    ensures
        forall|chave: Seq<char>| #[trigger]
            cache.union(
                (chaves_recentes(frames, agora) + chaves_recentes(arquivos, agora)).to_set(),
            ).contains(chave) <==> cache.contains(chave) || ha_recente(frames, agora, chave)
                || ha_recente(arquivos, agora, chave),
{
    let a = chaves_recentes(frames, agora);
    let b = chaves_recentes(arquivos, agora);
    assert forall|chave: Seq<char>| #[trigger]
        cache.union((a + b).to_set()).contains(chave) <==> cache.contains(chave) || ha_recente(
            frames,
            agora,
            chave,
        ) || ha_recente(arquivos, agora, chave) by {
        lema_chaves_recentes(frames, agora, chave);
        lema_chaves_recentes(arquivos, agora, chave);
        if a.contains(chave) {
            let i = choose|i: int| 0 <= i < a.len() && a[i] == chave;
            assert((a + b)[i] == chave);
        }
        if b.contains(chave) {
            let i = choose|i: int| 0 <= i < b.len() && b[i] == chave;
            assert((a + b)[a.len() + i] == chave);
        }
        if (a + b).contains(chave) {
            let i = choose|i: int| 0 <= i < (a + b).len() && (a + b)[i] == chave;
            if i < a.len() {
                assert(a[i] == chave);
            } else {
                assert(b[i - a.len()] == chave);
            }
        }
    }
}

/// Quem entra no cache no boot, dito em nanossegundos: a chave de uma linha
/// processada há menos de 172800 segundos, e só essa.
pub proof fn lei_janela_de_hidratacao(linhas: Seq<Processado>, agora: Momento, chave: Seq<char>)
    ensures
        chaves_recentes(linhas, agora).contains(chave) <==> exists|i: int|
            0 <= i < linhas.len() && agora.nanos - (
            #[trigger] linhas[i]).processado_em.nanos < 172_800_000_000_000 && chave
                == linhas[i].fonte@ + seq!['\0'] + linhas[i].chave_origem@,
{
    lema_chaves_recentes(linhas, agora, chave);
    assert forall|i: int| 0 <= i < linhas.len() implies chave_cache(
        (#[trigger] linhas[i]).fonte@,
        linhas[i].chave_origem@,
    ) == linhas[i].fonte@ + seq!['\0'] + linhas[i].chave_origem@ by {
        assert(chave_cache(linhas[i].fonte@, linhas[i].chave_origem@) =~= linhas[i].fonte@ + seq![
            '\0',
        ] + linhas[i].chave_origem@);
    }
    if ha_recente(linhas, agora, chave) {
        let i = choose|i: int|
            0 <= i < linhas.len() && recente(#[trigger] linhas[i], agora) && chave_cache(
                linhas[i].fonte@,
                linhas[i].chave_origem@,
            ) == chave;
        assert(agora.nanos - linhas[i].processado_em.nanos < 172_800_000_000_000);
    }
    if exists|i: int|
        0 <= i < linhas.len() && agora.nanos - (
        #[trigger] linhas[i]).processado_em.nanos < 172_800_000_000_000 && chave
            == linhas[i].fonte@ + seq!['\0'] + linhas[i].chave_origem@ {
        let i = choose|i: int|
            0 <= i < linhas.len() && agora.nanos - (
            #[trigger] linhas[i]).processado_em.nanos < 172_800_000_000_000 && chave
                == linhas[i].fonte@ + seq!['\0'] + linhas[i].chave_origem@;
        assert(recente(linhas[i], agora));
    }
}

/// As chaves recentes são as das linhas recentes.
proof fn lema_chaves_recentes(linhas: Seq<Processado>, agora: Momento, chave: Seq<char>)
    ensures
        chaves_recentes(linhas, agora).contains(chave) <==> ha_recente(linhas, agora, chave),
    decreases linhas.len(),
{
    if linhas.len() > 0 {
        let antes = linhas.drop_last();
        let ca = chaves_recentes(antes, agora);
        let c = chaves_recentes(linhas, agora);
        lema_chaves_recentes(antes, agora, chave);
        if ha_recente(antes, agora, chave) {
            let i = choose|i: int|
                0 <= i < antes.len() && recente(#[trigger] antes[i], agora) && chave_cache(
                    antes[i].fonte@,
                    antes[i].chave_origem@,
                ) == chave;
            assert(recente(linhas[i], agora));
            let k = choose|k: int| 0 <= k < ca.len() && ca[k] == chave;
            assert(c[k] == chave);
        }
        if c.contains(chave) && !ca.contains(chave) {
            let k = choose|k: int| 0 <= k < c.len() && c[k] == chave;
            if k < ca.len() {
                assert(ca[k] == chave);
            }
            assert(recente(linhas[linhas.len() - 1], agora));
        }
        if ha_recente(linhas, agora, chave) && !ha_recente(antes, agora, chave) {
            let i = choose|i: int|
                0 <= i < linhas.len() && recente(#[trigger] linhas[i], agora) && chave_cache(
                    linhas[i].fonte@,
                    linhas[i].chave_origem@,
                ) == chave;
            if i < antes.len() {
                assert(recente(antes[i], agora));
            }
            assert(c[ca.len() as int] == chave);
        }
    }
}

/// Resultado do insert idempotente no catálogo.
#[derive(Debug)]
pub enum ResultadoInsert {
    /// A linha entrou.
    Inserida,
    /// A chave já estava no catálogo: conflito ignorado.
    JaExistia,
    /// O banco recusou.
    Falhou,
}

/// Depois do insert, marca-se o cache? Sim se a linha existe no catálogo, agora
/// ou de antes; não se o banco falhou.
pub fn marca_apos_insert(res: &ResultadoInsert) -> (r: bool)
    ensures
        r <==> !(res is Falhou),
{
    match res {
        ResultadoInsert::Inserida => true,
        ResultadoInsert::JaExistia => true,
        ResultadoInsert::Falhou => false,
    }
}

// ---------------------------------------------------------------------------
// Raios
// ---------------------------------------------------------------------------

/// A linha de `m` descreve o flash `f` do arquivo `(fonte, chave_origem)`.
pub open spec fn linha_do_flash<F>(
    m: raios::Model<F>,
    fonte: Seq<char>,
    chave_origem: Seq<char>,
    f: Flash<F>,
) -> bool {
    &&& m.fonte@ == fonte
    &&& m.chave_origem@ == chave_origem
    &&& m.flash_id == f.flash_id
    &&& m.tempo == f.tempo
    &&& m.lat == f.lat
    &&& m.lon == f.lon
    &&& m.energia == f.energia
    &&& m.area == f.area
    &&& m.qualidade == f.qualidade
}

/// As linhas a gravar de um arquivo LCFA: uma por flash, na ordem.
pub fn linhas_dos_flashes<F: Copy>(
    fonte: &str,
    chave_origem: &str,
    flashes: &Vec<Flash<F>>,
) -> (r: Vec<raios::Model<F>>)
    ensures
        r@.len() == flashes@.len(),
        forall|i: int|
            0 <= i < r@.len() ==> linha_do_flash(
                #[trigger] r@[i],
                fonte@,
                chave_origem@,
                flashes@[i],
            ),
        forall|i: int|
            0 <= i < r@.len() ==> {
                &&& (#[trigger] r@[i]).fonte@ == fonte@
                &&& r@[i].chave_origem@ == chave_origem@
                &&& r@[i].flash_id == flashes@[i].flash_id
                &&& r@[i].tempo == flashes@[i].tempo
                &&& r@[i].lat == flashes@[i].lat
                &&& r@[i].lon == flashes@[i].lon
                &&& r@[i].energia == flashes@[i].energia
                &&& r@[i].area == flashes@[i].area
                &&& r@[i].qualidade == flashes@[i].qualidade
            },
{
    let mut r: Vec<raios::Model<F>> = Vec::new();
    let mut i: usize = 0;
    while i < flashes.len()
        invariant
            i <= flashes@.len(),
            r@.len() == i,
            forall|j: int|
                0 <= j < i ==> linha_do_flash(
                    #[trigger] r@[j],
                    fonte@,
                    chave_origem@,
                    flashes@[j],
                ),
        decreases flashes@.len() - i,
    {
        let f = &flashes[i];
        r.push(
            raios::Model {
                fonte: fonte.to_owned(),
                chave_origem: chave_origem.to_owned(),
                flash_id: f.flash_id,
                tempo: f.tempo,
                lat: f.lat,
                lon: f.lon,
                energia: f.energia,
                area: f.area,
                qualidade: f.qualidade,
            },
        );
        i = i + 1;
    }
    r
}

/// O flash volta inteiro da sua linha: linhas iguais só vêm de flashes iguais do
/// mesmo arquivo.
pub proof fn lei_linha_guarda_o_flash<F>(
    m: raios::Model<F>,
    fonte: Seq<char>,
    chave_origem: Seq<char>,
    f: Flash<F>,
    outra_fonte: Seq<char>,
    outra_chave: Seq<char>,
    g: Flash<F>,
)
    requires
        linha_do_flash(m, fonte, chave_origem, f),
        linha_do_flash(m, outra_fonte, outra_chave, g),
    ensures
        f == g,
        fonte == outra_fonte,
        chave_origem == outra_chave,
{
}

/// Os flashes de um arquivo, que têm ids diferentes, não disputam a chave
/// primária: nenhum se perde ao catalogar.
pub proof fn lei_flashes_sem_conflito<F>(
    linhas: Seq<raios::Model<F>>,
    fonte: Seq<char>,
    chave_origem: Seq<char>,
    flashes: Seq<Flash<F>>,
)
    requires
        linhas.len() == flashes.len(),
        forall|i: int|
            0 <= i < linhas.len() ==> linha_do_flash(
                #[trigger] linhas[i],
                fonte,
                chave_origem,
                flashes[i],
            ),
        forall|i: int, j: int|
            0 <= i < j < flashes.len() ==> (#[trigger] flashes[i]).flash_id != (
            #[trigger] flashes[j]).flash_id,
    ensures
        chaves_unicas(linhas, chave_do_raio::<F>()),
        insere_todas(Seq::<raios::Model<F>>::empty(), chave_do_raio::<F>(), linhas) == linhas,
{
    let chave = chave_do_raio::<F>();
    assert forall|i: int, j: int| 0 <= i < j < linhas.len() implies chave(#[trigger] linhas[i])
        != chave(#[trigger] linhas[j]) by {
        assert(linha_do_flash(linhas[i], fonte, chave_origem, flashes[i]));
        assert(linha_do_flash(linhas[j], fonte, chave_origem, flashes[j]));
    }
    lema_insere_sem_conflito(chave, linhas);
}

/// Linhas de chaves diferentes entram todas numa tabela vazia.
proof fn lema_insere_sem_conflito<R, K>(chave: spec_fn(R) -> K, novas: Seq<R>)
    requires
        chaves_unicas(novas, chave),
    ensures
        insere_todas(Seq::<R>::empty(), chave, novas) == novas,
    decreases novas.len(),
{
    if novas.len() == 0 {
        assert(novas =~= Seq::<R>::empty());
    } else {
        let menos = novas.drop_last();
        assert forall|i: int, j: int| 0 <= i < j < menos.len() implies chave(#[trigger] menos[i])
            != chave(#[trigger] menos[j]) by {
            assert(chave(novas[i]) != chave(novas[j]));
        }
        lema_insere_sem_conflito(chave, menos);
        if tem_chave(menos, chave, chave(novas.last())) {
            let i = choose|i: int|
                0 <= i < menos.len() && chave(#[trigger] menos[i]) == chave(novas.last());
            assert(chave(novas[i]) != chave(novas[novas.len() - 1]));
        }
        assert(menos.push(novas.last()) =~= novas);
    }
}

/// A linha do livro-razão de um arquivo LCFA, mesmo sem flash algum.
pub fn linha_do_arquivo<F>(
    fonte: &str,
    chave_origem: &str,
    inicio: Momento,
    flashes: &Vec<Flash<F>>,
) -> (r: arquivos::Model)
    requires
        flashes@.len() <= i32::MAX,
    ensures
        r.fonte@ == fonte@,
        r.chave_origem@ == chave_origem@,
        r.inicio == inicio,
        r.qtd_flashes == flashes@.len(),
        r.processado_em is None,
{
    arquivos::Model {
        fonte: fonte.to_owned(),
        chave_origem: chave_origem.to_owned(),
        inicio,
        qtd_flashes: flashes.len() as i32,
        processado_em: None,
    }
}

// ---------------------------------------------------------------------------
// O catálogo depois de um insert
// ---------------------------------------------------------------------------

/// Alguma linha da tabela tem a chave primária `k`.
pub open spec fn tem_chave<R, K>(tabela: Seq<R>, chave: spec_fn(R) -> K, k: K) -> bool {
    exists|i: int| 0 <= i < tabela.len() && chave(#[trigger] tabela[i]) == k
}

/// A tabela depois de um insert que nada faz em conflito de chave primária.
pub open spec fn insere<R, K>(tabela: Seq<R>, chave: spec_fn(R) -> K, nova: R) -> Seq<R> {
    if tem_chave(tabela, chave, chave(nova)) {
        tabela
    } else {
        tabela.push(nova)
    }
}

/// A tabela depois de inserir as linhas, uma a uma.
pub open spec fn insere_todas<R, K>(
    tabela: Seq<R>,
    chave: spec_fn(R) -> K,
    novas: Seq<R>,
) -> Seq<R>
    decreases novas.len(),
{
    if novas.len() == 0 {
        tabela
    } else {
        insere(insere_todas(tabela, chave, novas.drop_last()), chave, novas.last())
    }
}

/// Nenhuma chave primária se repete na tabela.
pub open spec fn chaves_unicas<R, K>(tabela: Seq<R>, chave: spec_fn(R) -> K) -> bool {
    forall|i: int, j: int|
        0 <= i < j < tabela.len() ==> chave(#[trigger] tabela[i]) != chave(#[trigger] tabela[j])
}

/// O que um insert devolve quando o banco não falha.
pub open spec fn resultado_do_insert<R, K>(
    tabela: Seq<R>,
    chave: spec_fn(R) -> K,
    nova: R,
) -> ResultadoInsert {
    if tem_chave(tabela, chave, chave(nova)) {
        ResultadoInsert::JaExistia
    } else {
        ResultadoInsert::Inserida
    }
}

/// A chave primária de `frames`.
pub open spec fn chave_do_frame() -> spec_fn(entity::Model) -> (Seq<char>, Seq<char>, i128) {
    |m: entity::Model| (m.fonte@, m.chave_origem@, m.inicio.nanos)
}

/// A linha de `frames` de um registro: os seus oito campos, e `processado_em`
/// posto pelo banco.
pub open spec fn linha_do_frame(rec: FrameRecord, processado_em: Momento) -> entity::Model {
    entity::Model {
        fonte: rec.fonte,
        produto: rec.produto,
        canal: rec.canal,
        chave_origem: rec.chave_origem,
        chave_destino: rec.chave_destino,
        tamanho_bytes: rec.tamanho_bytes,
        inicio: rec.inicio,
        fim: rec.fim,
        processado_em,
    }
}

/// A tabela `frames` depois de catalogar um registro no instante `quando`.
pub open spec fn frames_apos(
    frames: Seq<entity::Model>,
    rec: FrameRecord,
    quando: Momento,
) -> Seq<entity::Model> {
    insere(frames, chave_do_frame(), linha_do_frame(rec, quando))
}

/// O cache depois do insert: a chave entra se a linha existe no catálogo.
pub open spec fn cache_apos(
    cache: Set<Seq<char>>,
    fonte: Seq<char>,
    chave_origem: Seq<char>,
    res: ResultadoInsert,
) -> Set<Seq<char>> {
    if res is Falhou {
        cache
    } else {
        cache.insert(chave_cache(fonte, chave_origem))
    }
}

/// Catalogar um frame: as linhas que havia não mudam; se já havia uma com a sua
/// fonte, chave de origem e início, a tabela fica como estava; senão ganha
/// exatamente uma linha, com os oito campos do registro.
pub proof fn lei_cataloga_frame(
    frames: Seq<entity::Model>,
    rec: FrameRecord,
    quando: Momento,
)
    ensures
        tem_chave(
            frames,
            chave_do_frame(),
            (rec.fonte@, rec.chave_origem@, rec.inicio.nanos),
        ) ==> frames_apos(frames, rec, quando) == frames,
        !tem_chave(
            frames,
            chave_do_frame(),
            (rec.fonte@, rec.chave_origem@, rec.inicio.nanos),
        ) ==> frames_apos(frames, rec, quando) == frames.push(linha_do_frame(rec, quando)),
        tem_chave(
            frames_apos(frames, rec, quando),
            chave_do_frame(),
            (rec.fonte@, rec.chave_origem@, rec.inicio.nanos),
        ),
        frames.is_prefix_of(frames_apos(frames, rec, quando)),
        chaves_unicas(frames, chave_do_frame()) ==> chaves_unicas(
            frames_apos(frames, rec, quando),
            chave_do_frame(),
        ),
{
    lema_insere(frames, chave_do_frame(), linha_do_frame(rec, quando));
}

/// Catalogar é idempotente: catalogar de novo o mesmo registro, em qualquer
/// instante, não muda a tabela nem o cache, e nas duas vezes o objeto fica
/// marcado como feito.
pub proof fn lei_catalogo_idempotente(
    frames: Seq<entity::Model>,
    cache: Set<Seq<char>>,
    rec: FrameRecord,
    quando: Momento,
    de_novo: Momento,
)
    ensures
        ({
            let depois = frames_apos(frames, rec, quando);
            let res = resultado_do_insert(frames, chave_do_frame(), linha_do_frame(rec, quando));
            let res2 = resultado_do_insert(depois, chave_do_frame(), linha_do_frame(rec, de_novo));
            let marcado = cache_apos(cache, rec.fonte@, rec.chave_origem@, res);
            &&& frames_apos(depois, rec, de_novo) == depois
            &&& res2 == ResultadoInsert::JaExistia
            &&& marcado.contains(chave_cache(rec.fonte@, rec.chave_origem@))
            &&& cache_apos(marcado, rec.fonte@, rec.chave_origem@, res2) == marcado
        }),
{
    let depois = frames_apos(frames, rec, quando);
    let res = resultado_do_insert(frames, chave_do_frame(), linha_do_frame(rec, quando));
    let marcado = cache_apos(cache, rec.fonte@, rec.chave_origem@, res);
    lema_insere(frames, chave_do_frame(), linha_do_frame(rec, quando));
    assert(marcado.insert(chave_cache(rec.fonte@, rec.chave_origem@)) =~= marcado);
}

/// A chave primária de `raios`.
pub open spec fn chave_do_raio<F>() -> spec_fn(raios::Model<F>) -> (
    Seq<char>,
    Seq<char>,
    i32,
    i128,
) {
    |m: raios::Model<F>| (m.fonte@, m.chave_origem@, m.flash_id, m.tempo.nanos)
}

/// A chave primária de `raios_arquivos`.
pub open spec fn chave_do_arquivo() -> spec_fn(arquivos::Model) -> (Seq<char>, Seq<char>, i128) {
    |m: arquivos::Model| (m.fonte@, m.chave_origem@, m.inicio.nanos)
}

/// Catalogar um arquivo de raios é idempotente: as linhas que havia não mudam,
/// todo flash e o arquivo ficam no catálogo, e repetir os inserts não muda
/// nenhuma das duas tabelas.
pub proof fn lei_raios_idempotente<F>(
    raios: Seq<raios::Model<F>>,
    flashes: Seq<raios::Model<F>>,
    livro: Seq<arquivos::Model>,
    arquivo: arquivos::Model,
)
    ensures
        ({
            let r = insere_todas(raios, chave_do_raio::<F>(), flashes);
            let l = insere(livro, chave_do_arquivo(), arquivo);
            &&& raios.is_prefix_of(r)
            &&& livro.is_prefix_of(l)
            &&& forall|i: int|
                0 <= i < flashes.len() ==> tem_chave(
                    r,
                    chave_do_raio::<F>(),
                    chave_do_raio::<F>()(#[trigger] flashes[i]),
                )
            &&& tem_chave(l, chave_do_arquivo(), chave_do_arquivo()(arquivo))
            &&& insere_todas(r, chave_do_raio::<F>(), flashes) == r
            &&& insere(l, chave_do_arquivo(), arquivo) == l
        }),
{
    let r = insere_todas(raios, chave_do_raio::<F>(), flashes);
    lema_insere_todas(raios, chave_do_raio::<F>(), flashes);
    lema_ja_inseridas(r, chave_do_raio::<F>(), flashes);
    lema_insere(livro, chave_do_arquivo(), arquivo);
}

/// O que um insert conserva e garante.
proof fn lema_insere<R, K>(tabela: Seq<R>, chave: spec_fn(R) -> K, nova: R)
    ensures
        tabela.is_prefix_of(insere(tabela, chave, nova)),
        tem_chave(insere(tabela, chave, nova), chave, chave(nova)),
        chaves_unicas(tabela, chave) ==> chaves_unicas(insere(tabela, chave, nova), chave),
{
    let depois = insere(tabela, chave, nova);
    assert(tabela =~= depois.subrange(0, tabela.len() as int));
    if !tem_chave(tabela, chave, chave(nova)) {
        assert(chave(depois[tabela.len() as int]) == chave(nova));
        if chaves_unicas(tabela, chave) {
            assert forall|i: int, j: int| 0 <= i < j < depois.len() implies chave(
                #[trigger] depois[i],
            ) != chave(#[trigger] depois[j]) by {
                assert(chave(tabela[i]) == chave(depois[i]));
                if j < tabela.len() {
                    assert(chave(tabela[j]) == chave(depois[j]));
                }
            }
        }
    }
}

/// O que uma sequência de inserts conserva e garante.
proof fn lema_insere_todas<R, K>(tabela: Seq<R>, chave: spec_fn(R) -> K, novas: Seq<R>)
    ensures
        tabela.is_prefix_of(insere_todas(tabela, chave, novas)),
        forall|i: int|
            0 <= i < novas.len() ==> tem_chave(
                insere_todas(tabela, chave, novas),
                chave,
                chave(#[trigger] novas[i]),
            ),
    decreases novas.len(),
{
    let depois = insere_todas(tabela, chave, novas);
    if novas.len() == 0 {
        assert(tabela =~= depois.subrange(0, tabela.len() as int));
    } else {
        let menos = novas.drop_last();
        let antes = insere_todas(tabela, chave, menos);
        lema_insere_todas(tabela, chave, menos);
        lema_insere(antes, chave, novas.last());
        assert(tabela =~= depois.subrange(0, tabela.len() as int)) by {
            assert(antes =~= depois.subrange(0, antes.len() as int));
        }
        assert forall|i: int| 0 <= i < novas.len() implies tem_chave(
            depois,
            chave,
            chave(#[trigger] novas[i]),
        ) by {
            if i < menos.len() {
                assert(tem_chave(antes, chave, chave(menos[i])));
                let k = choose|k: int|
                    0 <= k < antes.len() && chave(#[trigger] antes[k]) == chave(menos[i]);
                assert(antes =~= depois.subrange(0, antes.len() as int));
                assert(depois[k] == antes[k]);
            }
        }
    }
}

/// Inserir o que já está não muda a tabela.
proof fn lema_ja_inseridas<R, K>(tabela: Seq<R>, chave: spec_fn(R) -> K, novas: Seq<R>)
    requires
        forall|i: int|
            0 <= i < novas.len() ==> tem_chave(tabela, chave, chave(#[trigger] novas[i])),
    ensures
        insere_todas(tabela, chave, novas) == tabela,
    decreases novas.len(),
{
    if novas.len() > 0 {
        let menos = novas.drop_last();
        assert forall|i: int| 0 <= i < menos.len() implies tem_chave(
            tabela,
            chave,
            chave(#[trigger] menos[i]),
        ) by {
            assert(tem_chave(tabela, chave, chave(novas[i])));
        }
        lema_ja_inseridas(tabela, chave, menos);
        assert(tem_chave(tabela, chave, chave(novas[novas.len() - 1])));
    }
}

// ---------------------------------------------------------------------------
// Schema e DDL
// ---------------------------------------------------------------------------

/// Letra minúscula ASCII ou `_`.
pub open spec fn cabeca_de_schema(c: char) -> bool {
    'a' <= c <= 'z' || c == '_'
}

/// Letra minúscula ASCII, algarismo ou `_`.
pub open spec fn cauda_de_schema(c: char) -> bool {
    cabeca_de_schema(c) || '0' <= c <= '9'
}

/// O texto é um identificador Postgres simples: `[a-z_][a-z0-9_]*`.
pub open spec fn schema_valido(s: Seq<char>) -> bool {
    &&& s.len() > 0
    &&& cabeca_de_schema(s[0])
    &&& forall|i: int| 1 <= i < s.len() ==> cauda_de_schema(#[trigger] s[i])
}

/// O schema da configuração não é um identificador simples.
#[derive(Debug)]
pub struct SchemaInvalido {
    pub schema: String,
}

impl SchemaInvalido {
    /// A mensagem do erro, como aparece para o operador.
    pub fn mensagem(&self) -> (r: String)
        ensures
            r@ == "database.schema inválido '"@ + self.schema@
                + "': use só [a-z0-9_], começando por letra minúscula ou '_'"@,
    {
        let mut s = "database.schema inválido '".to_owned();
        s.append(self.schema.as_str());
        s.append("': use só [a-z0-9_], começando por letra minúscula ou '_'");
        s
    }
}

/// Valida `database.schema` como identificador Postgres simples e seguro para
/// interpolar no DDL: `[a-z_][a-z0-9_]*` (minúsculo).
pub fn validated_schema(db_cfg: &DatabaseConfig) -> (r: Result<String, SchemaInvalido>)
    ensures
        r is Ok <==> schema_valido(db_cfg.schema@),
        r is Ok <==> {
            let s = db_cfg.schema@;
            &&& s.len() > 0
            &&& !('0' <= s[0] <= '9')
            &&& forall|i: int|
                0 <= i < s.len() ==> 'a' <= #[trigger] s[i] <= 'z' || '0' <= s[i] <= '9' || s[i]
                    == '_'
        },
        match r {
            Ok(s) => s@ == db_cfg.schema@,
            Err(e) => e.schema@ == db_cfg.schema@,
        },
{
    proof {
        lei_schema_aceito(db_cfg.schema@);
    }
    let v = texto::letras(db_cfg.schema.as_str());
    if v.len() == 0 {
        return Err(SchemaInvalido { schema: db_cfg.schema.clone() });
    }
    let c = v[0];
    if !(('a' <= c && c <= 'z') || c == '_') {
        return Err(SchemaInvalido { schema: db_cfg.schema.clone() });
    }
    let mut i: usize = 1;
    while i < v.len()
        invariant
            v@ == db_cfg.schema@,
            1 <= i <= v@.len(),
            forall|j: int| 1 <= j < i ==> cauda_de_schema(#[trigger] v@[j]),
        decreases v@.len() - i,
    {
        let c = v[i];
        if !(('a' <= c && c <= 'z') || ('0' <= c && c <= '9') || c == '_') {
            assert(!cauda_de_schema(v@[i as int]));
            return Err(SchemaInvalido { schema: db_cfg.schema.clone() });
        }
        i = i + 1;
    }
    Ok(db_cfg.schema.clone())
}

/// O schema aceito é exatamente o texto não vazio de letras minúsculas,
/// algarismos e `_` que não começa por algarismo.
pub proof fn lei_schema_aceito(s: Seq<char>)
    ensures
        schema_valido(s) <==> {
            &&& s.len() > 0
            &&& !('0' <= s[0] <= '9')
            &&& forall|i: int|
                0 <= i < s.len() ==> 'a' <= #[trigger] s[i] <= 'z' || '0' <= s[i] <= '9' || s[i]
                    == '_'
        },
{
    if schema_valido(s) {
        assert forall|i: int| 0 <= i < s.len() implies 'a' <= #[trigger] s[i] <= 'z' || '0' <= s[i]
            <= '9' || s[i] == '_' by {
            if i > 0 {
                assert(cauda_de_schema(s[i]));
            }
        }
    }
}

/// Um schema aceito não traz aspas, espaço nem ponto-e-vírgula: interpolá-lo no
/// DDL não muda a forma do comando.
pub proof fn lei_schema_seguro(s: Seq<char>)
    requires
        schema_valido(s),
    ensures
        !s.contains('"'),
        !s.contains('\''),
        !s.contains('\\'),
        !s.contains(' '),
        !s.contains(';'),
        !s.contains('.'),
{
    assert forall|i: int| 0 <= i < s.len() implies cauda_de_schema(#[trigger] s[i]) by {
        if i > 0 {
            assert(cauda_de_schema(s[i]));
        }
    }
}

/// O DDL da tabela `frames`.
pub open spec fn ddl_tabela_frames(schema: Seq<char>) -> Seq<char> {
    "CREATE TABLE IF NOT EXISTS \""@ + schema
        + "\".frames (\n    fonte          text        NOT NULL,\n    produto        text        NOT NULL,\n    canal          text,\n    chave_origem   text        NOT NULL,\n    chave_destino  text        NOT NULL,\n    tamanho_bytes  bigint      NOT NULL,\n    inicio         timestamptz NOT NULL,\n    fim            timestamptz,\n    processado_em  timestamptz NOT NULL DEFAULT now(),\n    PRIMARY KEY (fonte, chave_origem, inicio)\n)"@
}

/// O DDL que faz de `frames` uma hypertable particionada em `inicio`.
pub open spec fn ddl_hypertable_frames(schema: Seq<char>) -> Seq<char> {
    "SELECT public.create_hypertable('"@ + schema
        + ".frames', 'inicio', if_not_exists => TRUE)"@
}

/// O DDL do índice de consulta de `frames`.
pub open spec fn ddl_indice_frames(schema: Seq<char>) -> Seq<char> {
    "CREATE INDEX IF NOT EXISTS frames_produto_inicio_idx ON \""@ + schema
        + "\".frames (produto, inicio DESC)"@
}

/// O DDL da tabela `raios`.
pub open spec fn ddl_tabela_raios(schema: Seq<char>) -> Seq<char> {
    "CREATE TABLE IF NOT EXISTS \""@ + schema
        + "\".raios (\n    fonte          text             NOT NULL,\n    chave_origem   text             NOT NULL,\n    flash_id       integer          NOT NULL,\n    tempo          timestamptz      NOT NULL,\n    lat            double precision NOT NULL,\n    lon            double precision NOT NULL,\n    energia        double precision,\n    area           double precision,\n    qualidade      smallint         NOT NULL,\n    PRIMARY KEY (fonte, chave_origem, flash_id, tempo)\n)"@
}

/// O DDL que faz de `raios` uma hypertable particionada em `tempo`.
pub open spec fn ddl_hypertable_raios(schema: Seq<char>) -> Seq<char> {
    "SELECT public.create_hypertable('"@ + schema
        + ".raios', 'tempo', if_not_exists => TRUE)"@
}

/// O DDL do índice de consulta de `raios`.
pub open spec fn ddl_indice_raios(schema: Seq<char>) -> Seq<char> {
    "CREATE INDEX IF NOT EXISTS raios_tempo_idx ON \""@ + schema + "\".raios (tempo DESC)"@
}

/// O DDL da tabela `raios_arquivos`.
pub open spec fn ddl_tabela_arquivos(schema: Seq<char>) -> Seq<char> {
    "CREATE TABLE IF NOT EXISTS \""@ + schema
        + "\".raios_arquivos (\n    fonte          text        NOT NULL,\n    chave_origem   text        NOT NULL,\n    inicio         timestamptz NOT NULL,\n    qtd_flashes    integer     NOT NULL,\n    processado_em  timestamptz NOT NULL DEFAULT now(),\n    PRIMARY KEY (fonte, chave_origem, inicio)\n)"@
}

/// O DDL que faz de `raios_arquivos` uma hypertable particionada em `inicio`.
pub open spec fn ddl_hypertable_arquivos(schema: Seq<char>) -> Seq<char> {
    "SELECT public.create_hypertable('"@ + schema
        + ".raios_arquivos', 'inicio', if_not_exists => TRUE)"@
}

/// O DDL do catálogo de frames, na ordem de execução.
pub open spec fn ddl_frames(schema: Seq<char>) -> Seq<Seq<char>> {
    seq![ddl_tabela_frames(schema), ddl_hypertable_frames(schema), ddl_indice_frames(schema)]
}

/// O DDL do catálogo de raios, na ordem de execução.
pub open spec fn ddl_raios(schema: Seq<char>) -> Seq<Seq<char>> {
    seq![
        ddl_tabela_raios(schema),
        ddl_hypertable_raios(schema),
        ddl_indice_raios(schema),
        ddl_tabela_arquivos(schema),
        ddl_hypertable_arquivos(schema),
    ]
}

/// Um comando com o schema entre duas partes fixas.
fn interpola(antes: &str, schema: &str, depois: &str) -> (r: String)
    ensures
        r@ == antes@ + schema@ + depois@,
{
    let mut s = antes.to_owned();
    s.append(schema);
    s.append(depois);
    s
}

/// Statements do DDL do catálogo de frames, na ordem de execução. Não cria o
/// schema (o role não tem permissão p/ isso). `schema` já vem validado como
/// identificador simples, então a interpolação é segura.
///
/// A função da hypertable vem qualificada com `public` porque o `search_path`
/// da conexão aponta só pro schema do catálogo.
pub fn ddl_statements(schema: &str) -> (r: Vec<String>)
    ensures
        texto::textos(r@) == ddl_frames(schema@),
{
    let tabela = interpola(
        "CREATE TABLE IF NOT EXISTS \"",
        schema,
        "\".frames (\n    fonte          text        NOT NULL,\n    produto        text        NOT NULL,\n    canal          text,\n    chave_origem   text        NOT NULL,\n    chave_destino  text        NOT NULL,\n    tamanho_bytes  bigint      NOT NULL,\n    inicio         timestamptz NOT NULL,\n    fim            timestamptz,\n    processado_em  timestamptz NOT NULL DEFAULT now(),\n    PRIMARY KEY (fonte, chave_origem, inicio)\n)",
    );
    let hypertable = interpola(
        "SELECT public.create_hypertable('",
        schema,
        ".frames', 'inicio', if_not_exists => TRUE)",
    );
    let indice = interpola(
        "CREATE INDEX IF NOT EXISTS frames_produto_inicio_idx ON \"",
        schema,
        "\".frames (produto, inicio DESC)",
    );
    let r = vec![tabela, hypertable, indice];
    assert(texto::textos(r@) =~= ddl_frames(schema@));
    r
}

/// Statements do DDL do catálogo de raios: os flashes (`raios`) e o livro-razão
/// (`raios_arquivos`), nas mesmas condições de [`ddl_statements`].
pub fn ddl_statements_raios(schema: &str) -> (r: Vec<String>)
    ensures
        texto::textos(r@) == ddl_raios(schema@),
{
    let tabela = interpola(
        "CREATE TABLE IF NOT EXISTS \"",
        schema,
        "\".raios (\n    fonte          text             NOT NULL,\n    chave_origem   text             NOT NULL,\n    flash_id       integer          NOT NULL,\n    tempo          timestamptz      NOT NULL,\n    lat            double precision NOT NULL,\n    lon            double precision NOT NULL,\n    energia        double precision,\n    area           double precision,\n    qualidade      smallint         NOT NULL,\n    PRIMARY KEY (fonte, chave_origem, flash_id, tempo)\n)",
    );
    let hypertable = interpola(
        "SELECT public.create_hypertable('",
        schema,
        ".raios', 'tempo', if_not_exists => TRUE)",
    );
    let indice = interpola(
        "CREATE INDEX IF NOT EXISTS raios_tempo_idx ON \"",
        schema,
        "\".raios (tempo DESC)",
    );
    let arquivos = interpola(
        "CREATE TABLE IF NOT EXISTS \"",
        schema,
        "\".raios_arquivos (\n    fonte          text        NOT NULL,\n    chave_origem   text        NOT NULL,\n    inicio         timestamptz NOT NULL,\n    qtd_flashes    integer     NOT NULL,\n    processado_em  timestamptz NOT NULL DEFAULT now(),\n    PRIMARY KEY (fonte, chave_origem, inicio)\n)",
    );
    let hypertable_arquivos = interpola(
        "SELECT public.create_hypertable('",
        schema,
        ".raios_arquivos', 'inicio', if_not_exists => TRUE)",
    );
    let r = vec![tabela, hypertable, indice, arquivos, hypertable_arquivos];
    assert(texto::textos(r@) =~= ddl_raios(schema@));
    r
}

/// O que ocorre em `a` ou em `b` ocorre em `a + b`.
proof fn lema_contem_concat(a: Seq<char>, b: Seq<char>, sub: Seq<char>)
    requires
        texto::contem(a, sub) || texto::contem(b, sub),
    ensures
        texto::contem(a + b, sub),
{
    if texto::contem(a, sub) {
        let i = choose|i: int| texto::ocorre_em(a, sub, i);
        assert((a + b).subrange(i, i + sub.len()) =~= a.subrange(i, i + sub.len()));
        assert(texto::ocorre_em(a + b, sub, i));
    } else {
        let i = choose|i: int| texto::ocorre_em(b, sub, i);
        let k = a.len() + i;
        assert((a + b).subrange(k, k + sub.len()) =~= b.subrange(i, i + sub.len()));
        assert(texto::ocorre_em(a + b, sub, k));
    }
}

/// O comando só age se o objeto ainda não existe.
pub open spec fn idempotente(comando: Seq<char>) -> bool {
    texto::contem(comando, "IF NOT EXISTS"@) || texto::contem(comando, "if_not_exists => TRUE"@)
}

/// Todo comando do DDL é idempotente: aplicar as migrations de novo não falha
/// nem recria nada.
pub proof fn lei_ddl_idempotente(schema: Seq<char>)
    ensures
        forall|i: int|
            0 <= i < ddl_frames(schema).len() ==> idempotente(#[trigger] ddl_frames(schema)[i]),
        forall|i: int|
            0 <= i < ddl_raios(schema).len() ==> idempotente(#[trigger] ddl_raios(schema)[i]),
{
    let guarda = "IF NOT EXISTS"@;
    let nao_existe = "if_not_exists => TRUE"@;
    let tabela = "CREATE TABLE IF NOT EXISTS \""@;
    let indice_f = "CREATE INDEX IF NOT EXISTS frames_produto_inicio_idx ON \""@;
    let indice_r = "CREATE INDEX IF NOT EXISTS raios_tempo_idx ON \""@;
    let hyper = "SELECT public.create_hypertable('"@;
    let hyper_f = ".frames', 'inicio', if_not_exists => TRUE)"@;
    let hyper_r = ".raios', 'tempo', if_not_exists => TRUE)"@;
    let hyper_a = ".raios_arquivos', 'inicio', if_not_exists => TRUE)"@;
    reveal_strlit("IF NOT EXISTS");
    reveal_strlit("if_not_exists => TRUE");
    reveal_strlit("CREATE TABLE IF NOT EXISTS \"");
    reveal_strlit("CREATE INDEX IF NOT EXISTS frames_produto_inicio_idx ON \"");
    reveal_strlit("CREATE INDEX IF NOT EXISTS raios_tempo_idx ON \"");
    reveal_strlit(".frames', 'inicio', if_not_exists => TRUE)");
    reveal_strlit(".raios', 'tempo', if_not_exists => TRUE)");
    reveal_strlit(".raios_arquivos', 'inicio', if_not_exists => TRUE)");
    assert(tabela.subrange(13, 26) =~= guarda);
    assert(texto::ocorre_em(tabela, guarda, 13));
    assert(indice_f.subrange(13, 26) =~= guarda);
    assert(texto::ocorre_em(indice_f, guarda, 13));
    assert(indice_r.subrange(13, 26) =~= guarda);
    assert(texto::ocorre_em(indice_r, guarda, 13));
    assert(hyper_f.subrange(20, 41) =~= nao_existe);
    assert(texto::ocorre_em(hyper_f, nao_existe, 20));
    assert(hyper_r.subrange(18, 39) =~= nao_existe);
    assert(texto::ocorre_em(hyper_r, nao_existe, 18));
    assert(hyper_a.subrange(28, 49) =~= nao_existe);
    assert(texto::ocorre_em(hyper_a, nao_existe, 28));
    assert forall|i: int| 0 <= i < ddl_frames(schema).len() implies idempotente(
        #[trigger] ddl_frames(schema)[i],
    ) by {
        if i == 0 {
            lema_guarda_no_inicio(tabela, schema, ddl_frames(schema)[i], guarda);
        } else if i == 1 {
            lema_contem_concat(hyper + schema, hyper_f, nao_existe);
        } else {
            lema_guarda_no_inicio(indice_f, schema, ddl_frames(schema)[i], guarda);
        }
    }
    assert forall|i: int| 0 <= i < ddl_raios(schema).len() implies idempotente(
        #[trigger] ddl_raios(schema)[i],
    ) by {
        if i == 0 || i == 3 {
            lema_guarda_no_inicio(tabela, schema, ddl_raios(schema)[i], guarda);
        } else if i == 1 {
            lema_contem_concat(hyper + schema, hyper_r, nao_existe);
        } else if i == 2 {
            lema_guarda_no_inicio(indice_r, schema, ddl_raios(schema)[i], guarda);
        } else {
            lema_contem_concat(hyper + schema, hyper_a, nao_existe);
        }
    }
}

/// A tabela de raios guarda o flash: o id, o tempo, a posição, a energia e a área,
/// que podem faltar, e a qualidade. A chave primária separa os flashes.
pub proof fn lei_colunas_de_raios(schema: Seq<char>)
    ensures
        texto::contem(ddl_tabela_raios(schema), "flash_id       integer          NOT NULL"@),
        texto::contem(ddl_tabela_raios(schema), "tempo          timestamptz      NOT NULL"@),
        texto::contem(ddl_tabela_raios(schema), "lat            double precision NOT NULL"@),
        texto::contem(ddl_tabela_raios(schema), "lon            double precision NOT NULL"@),
        texto::contem(ddl_tabela_raios(schema), "energia        double precision,"@),
        texto::contem(ddl_tabela_raios(schema), "area           double precision,"@),
        texto::contem(ddl_tabela_raios(schema), "qualidade      smallint         NOT NULL"@),
        texto::contem(ddl_tabela_raios(schema), "PRIMARY KEY (fonte, chave_origem, flash_id, tempo)"@),
{
    let antes = "CREATE TABLE IF NOT EXISTS \""@;
    let l = "\".raios (\n    fonte          text             NOT NULL,\n    chave_origem   text             NOT NULL,\n    flash_id       integer          NOT NULL,\n    tempo          timestamptz      NOT NULL,\n    lat            double precision NOT NULL,\n    lon            double precision NOT NULL,\n    energia        double precision,\n    area           double precision,\n    qualidade      smallint         NOT NULL,\n    PRIMARY KEY (fonte, chave_origem, flash_id, tempo)\n)"@;
    reveal_strlit(
        "\".raios (\n    fonte          text             NOT NULL,\n    chave_origem   text             NOT NULL,\n    flash_id       integer          NOT NULL,\n    tempo          timestamptz      NOT NULL,\n    lat            double precision NOT NULL,\n    lon            double precision NOT NULL,\n    energia        double precision,\n    area           double precision,\n    qualidade      smallint         NOT NULL,\n    PRIMARY KEY (fonte, chave_origem, flash_id, tempo)\n)",
    );
    reveal_strlit("flash_id       integer          NOT NULL");
    assert(l.subrange(106, 146) =~= "flash_id       integer          NOT NULL"@);
    lema_trecho_do_fim(antes, schema, l, "flash_id       integer          NOT NULL"@, 106);
    reveal_strlit("tempo          timestamptz      NOT NULL");
    assert(l.subrange(152, 192) =~= "tempo          timestamptz      NOT NULL"@);
    lema_trecho_do_fim(antes, schema, l, "tempo          timestamptz      NOT NULL"@, 152);
    reveal_strlit("lat            double precision NOT NULL");
    assert(l.subrange(198, 238) =~= "lat            double precision NOT NULL"@);
    lema_trecho_do_fim(antes, schema, l, "lat            double precision NOT NULL"@, 198);
    reveal_strlit("lon            double precision NOT NULL");
    assert(l.subrange(244, 284) =~= "lon            double precision NOT NULL"@);
    lema_trecho_do_fim(antes, schema, l, "lon            double precision NOT NULL"@, 244);
    reveal_strlit("energia        double precision,");
    assert(l.subrange(290, 322) =~= "energia        double precision,"@);
    lema_trecho_do_fim(antes, schema, l, "energia        double precision,"@, 290);
    reveal_strlit("area           double precision,");
    assert(l.subrange(327, 359) =~= "area           double precision,"@);
    lema_trecho_do_fim(antes, schema, l, "area           double precision,"@, 327);
    reveal_strlit("qualidade      smallint         NOT NULL");
    assert(l.subrange(364, 404) =~= "qualidade      smallint         NOT NULL"@);
    lema_trecho_do_fim(antes, schema, l, "qualidade      smallint         NOT NULL"@, 364);
    reveal_strlit("PRIMARY KEY (fonte, chave_origem, flash_id, tempo)");
    assert(l.subrange(410, 460) =~= "PRIMARY KEY (fonte, chave_origem, flash_id, tempo)"@);
    lema_trecho_do_fim(antes, schema, l, "PRIMARY KEY (fonte, chave_origem, flash_id, tempo)"@, 410);
}

/// O livro-razão guarda o início e a contagem de flashes de cada arquivo, e quem
/// põe o instante do processamento é o banco.
pub proof fn lei_colunas_de_arquivos(schema: Seq<char>)
    ensures
        texto::contem(ddl_tabela_arquivos(schema), "inicio         timestamptz NOT NULL"@),
        texto::contem(ddl_tabela_arquivos(schema), "qtd_flashes    integer     NOT NULL"@),
        texto::contem(ddl_tabela_arquivos(schema), "processado_em  timestamptz NOT NULL DEFAULT now()"@),
        texto::contem(ddl_tabela_arquivos(schema), "PRIMARY KEY (fonte, chave_origem, inicio)"@),
{
    let antes = "CREATE TABLE IF NOT EXISTS \""@;
    let l = "\".raios_arquivos (\n    fonte          text        NOT NULL,\n    chave_origem   text        NOT NULL,\n    inicio         timestamptz NOT NULL,\n    qtd_flashes    integer     NOT NULL,\n    processado_em  timestamptz NOT NULL DEFAULT now(),\n    PRIMARY KEY (fonte, chave_origem, inicio)\n)"@;
    reveal_strlit(
        "\".raios_arquivos (\n    fonte          text        NOT NULL,\n    chave_origem   text        NOT NULL,\n    inicio         timestamptz NOT NULL,\n    qtd_flashes    integer     NOT NULL,\n    processado_em  timestamptz NOT NULL DEFAULT now(),\n    PRIMARY KEY (fonte, chave_origem, inicio)\n)",
    );
    reveal_strlit("inicio         timestamptz NOT NULL");
    assert(l.subrange(105, 140) =~= "inicio         timestamptz NOT NULL"@);
    lema_trecho_do_fim(antes, schema, l, "inicio         timestamptz NOT NULL"@, 105);
    reveal_strlit("qtd_flashes    integer     NOT NULL");
    assert(l.subrange(146, 181) =~= "qtd_flashes    integer     NOT NULL"@);
    lema_trecho_do_fim(antes, schema, l, "qtd_flashes    integer     NOT NULL"@, 146);
    reveal_strlit("processado_em  timestamptz NOT NULL DEFAULT now()");
    assert(l.subrange(187, 236) =~= "processado_em  timestamptz NOT NULL DEFAULT now()"@);
    lema_trecho_do_fim(antes, schema, l, "processado_em  timestamptz NOT NULL DEFAULT now()"@, 187);
    reveal_strlit("PRIMARY KEY (fonte, chave_origem, inicio)");
    assert(l.subrange(242, 283) =~= "PRIMARY KEY (fonte, chave_origem, inicio)"@);
    lema_trecho_do_fim(antes, schema, l, "PRIMARY KEY (fonte, chave_origem, inicio)"@, 242);
}

/// O que está num comando, no trecho depois do schema, ocorre nele.
proof fn lema_trecho_do_fim(
    antes: Seq<char>,
    schema: Seq<char>,
    depois: Seq<char>,
    sub: Seq<char>,
    k: int,
)
    requires
        0 <= k <= depois.len() - sub.len(),
        depois.subrange(k, k + sub.len()) == sub,
    ensures
        texto::contem(antes + schema + depois, sub),
{
    assert(texto::ocorre_em(depois, sub, k));
    lema_contem_concat(antes + schema, depois, sub);
}

/// Um comando que começa por `antes` contém o que `antes` contém.
proof fn lema_guarda_no_inicio(
    antes: Seq<char>,
    schema: Seq<char>,
    comando: Seq<char>,
    guarda: Seq<char>,
)
    requires
        texto::contem(antes, guarda),
        exists|resto: Seq<char>| comando == #[trigger] (antes + schema + resto),
    ensures
        texto::contem(comando, guarda),
{
    let resto = choose|resto: Seq<char>| comando == #[trigger] (antes + schema + resto);
    lema_contem_concat(antes, schema, guarda);
    lema_contem_concat(antes + schema, resto, guarda);
}

} // verus!
