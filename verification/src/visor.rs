//! Visor simples de raios (GLM): o que pedir ao catálogo pela janela dos últimos
//! N minutos e como montar o JSON que o mapa lê.
//!
//! O navegador não fala gRPC; o visor faz a ponte gRPC→JSON. Latitude, longitude
//! e energia chegam aqui já escritas.

use crate::serve::{ListarFramesRequest, ListarRaiosRequest, Timestamp};
use crate::texto;
use vstd::prelude::*;

verus! {

broadcast use vstd::string::group_string_axioms;

/// Teto de páginas de raios: trava de segurança contra laço infinito.
pub const MAX_PAGINAS_RAIOS: u32 = 500;

/// Teto de páginas de frames.
pub const MAX_PAGINAS_FRAMES: u32 = 50;

/// Folga, em minutos, antes da janela dos frames (> 2 ciclos C13): garante um
/// frame de fundo já no começo do loop.
pub const FOLGA_FRAMES_MIN: u64 = 25;

// ---------------------------------------------------------------------------
// Janela e tempo
// ---------------------------------------------------------------------------

/// O começo da janela de `minutos` que termina `agora_secs` segundos e
/// `agora_nanos` nanossegundos depois da época; `None` se cai antes dela.
fn inicio_da_janela(agora_secs: u64, agora_nanos: u32, minutos: u64) -> (r: Option<Timestamp>)
    requires
        agora_secs <= i64::MAX,
        agora_nanos < 1_000_000_000,
        minutos * 60 <= u64::MAX,
    ensures
        r is Some <==> agora_secs >= minutos * 60,
        r matches Some(t) ==> t.seconds == agora_secs - minutos * 60 && t.nanos == agora_nanos,
{
    let recuo = minutos * 60;
    if agora_secs < recuo {
        return None;
    }
    Some(Timestamp { seconds: (agora_secs - recuo) as i64, nanos: agora_nanos as i32 })
}

/// O começo da janela dos raios.
pub fn janela_raios(agora_secs: u64, agora_nanos: u32, minutos: u32) -> (r: Option<Timestamp>)
    requires
        agora_secs <= i64::MAX,
        agora_nanos < 1_000_000_000,
    ensures
        r is Some <==> agora_secs >= minutos * 60,
        r matches Some(t) ==> t.seconds == agora_secs - minutos * 60 && t.nanos == agora_nanos,
{
    inicio_da_janela(agora_secs, agora_nanos, minutos as u64)
}

/// O começo da janela dos frames: a dos raios, com a folga.
pub fn janela_frames(agora_secs: u64, agora_nanos: u32, minutos: u32) -> (r: Option<Timestamp>)
    requires
        agora_secs <= i64::MAX,
        agora_nanos < 1_000_000_000,
    ensures
        r is Some <==> agora_secs >= (minutos + 25) * 60,
        r matches Some(t) ==> t.seconds == agora_secs - (minutos + 25) * 60 && t.nanos
            == agora_nanos,
{
    inicio_da_janela(agora_secs, agora_nanos, minutos as u64 + FOLGA_FRAMES_MIN)
}

/// Milissegundos inteiros de uma fração em nanossegundos, na direção do zero.
pub open spec fn millis_da_fracao(nanos: int) -> int {
    if nanos >= 0 {
        nanos / 1_000_000
    } else {
        -((-nanos) / 1_000_000)
    }
}

/// Milissegundos desde a época; sem tempo, 0.
pub open spec fn em_millis(ts: Option<Timestamp>) -> int {
    match ts {
        Some(t) => t.seconds * 1000 + millis_da_fracao(t.nanos as int),
        None => 0,
    }
}

/// Os milissegundos de um tempo distam dele menos de um milissegundo; a fração
/// positiva corta para baixo, a negativa para cima; e um segundo a mais são mil
/// milissegundos a mais.
pub proof fn lei_millis(t: Timestamp)
    ensures
        t.nanos >= 0 ==> em_millis(Some(t)) * 1_000_000 <= t.seconds * 1_000_000_000 + t.nanos
            < em_millis(Some(t)) * 1_000_000 + 1_000_000,
        t.nanos < 0 ==> em_millis(Some(t)) * 1_000_000 - 1_000_000 < t.seconds * 1_000_000_000
            + t.nanos <= em_millis(Some(t)) * 1_000_000,
        t.seconds < i64::MAX ==> em_millis(
            Some(Timestamp { seconds: (t.seconds + 1) as i64, nanos: t.nanos }),
        ) == em_millis(Some(t)) + 1000,
        em_millis(None) == 0,
{
}

/// Os milissegundos do tempo cabem em 64 bits.
pub open spec fn tem_millis(ts: Option<Timestamp>) -> bool {
    ts matches Some(t) ==> i64::MIN <= t.seconds * 1000 <= i64::MAX && i64::MIN <= em_millis(ts)
        <= i64::MAX
}

/// Milissegundos desde a época.
pub fn millis(ts: &Option<Timestamp>) -> (r: i64)
    requires
        tem_millis(*ts),
    ensures
        r == em_millis(*ts),
        *ts is None ==> r == 0,
        *ts is Some && ts->0.nanos >= 0 ==> r * 1_000_000 <= ts->0.seconds * 1_000_000_000
            + ts->0.nanos < r * 1_000_000 + 1_000_000,
        *ts is Some && ts->0.nanos < 0 ==> r * 1_000_000 - 1_000_000 < ts->0.seconds * 1_000_000_000
            + ts->0.nanos <= r * 1_000_000,
{
    proof {
        if *ts is Some {
            lei_millis(ts->0);
        }
    }
    match ts {
        Some(t) => {
            let fracao: i64 = if t.nanos >= 0 {
                t.nanos as i64 / 1_000_000
            } else {
                let m: i64 = -(t.nanos as i64);
                -(m / 1_000_000)
            };
            t.seconds * 1000 + fracao
        },
        None => 0,
    }
}

// ---------------------------------------------------------------------------
// Texto JSON
// ---------------------------------------------------------------------------

/// Um caractere dentro de uma string JSON.
pub open spec fn escapado(c: char) -> Seq<char> {
    if c == '\\' {
        seq!['\\', '\\']
    } else if c == '"' {
        seq!['\\', '"']
    } else {
        seq![c]
    }
}

/// Um texto dentro de uma string JSON: `\` e `"` ganham uma barra invertida.
pub open spec fn escapa(s: Seq<char>) -> Seq<char>
    decreases s.len(),
{
    if s.len() == 0 {
        Seq::<char>::empty()
    } else {
        escapa(s.drop_last()) + escapado(s.last())
    }
}

/// Escapar é caractere a caractere: só `\` e `"` mudam, e só ganham uma barra
/// invertida à frente.
pub proof fn lei_escape_minimo(a: Seq<char>, b: Seq<char>, c: char)
    ensures
        escapa(a + b) == escapa(a) + escapa(b),
        c == '\\' || c == '"' ==> escapa(seq![c]) == seq!['\\', c],
        c != '\\' && c != '"' ==> escapa(seq![c]) == seq![c],
        escapa(Seq::<char>::empty()) == Seq::<char>::empty(),
    decreases b.len(),
{
    let vazio = Seq::<char>::empty();
    assert(seq![c].drop_last() =~= vazio);
    assert(escapa(vazio) + escapado(c) =~= escapado(c));
    assert(escapa(seq![c]) == escapado(c));
    if b.len() == 0 {
        assert(a + b =~= a);
        assert(escapa(a) + escapa(b) =~= escapa(a));
    } else {
        assert((a + b).drop_last() =~= a + b.drop_last());
        lei_escape_minimo(a, b.drop_last(), c);
        assert(escapa(a + b) =~= escapa(a) + escapa(b));
    }
}

/// Escapa o mínimo p/ embutir a URL numa string JSON (URLs assinadas não têm
/// aspas/barra-invertida, mas escapamos por segurança).
pub fn escapar_json(s: &str) -> (r: String)
    ensures
        r@ == escapa(s@),
{
    let v = texto::letras(s);
    let mut r = "".to_owned();
    proof {
        reveal_strlit("");
        assert(r@ =~= escapa(s@.take(0)));
    }
    let mut i: usize = 0;
    while i < v.len()
        invariant
            v@ == s@,
            i <= v@.len(),
            r@ == escapa(s@.take(i as int)),
        decreases v@.len() - i,
    {
        let c = v[i];
        let ghost antes = r@;
        proof {
            let t = s@.take(i + 1);
            assert(t.drop_last() =~= s@.take(i as int));
            assert(t.last() == c);
        }
        if c == '\\' || c == '"' {
            r.push('\\');
        }
        r.push(c);
        assert(r@ =~= antes + escapado(c));
        i = i + 1;
    }
    assert(s@.take(i as int) =~= s@);
    r
}

/// Lê o corpo de uma string JSON até as aspas que a fecham: o texto e o que
/// sobra depois delas.
pub open spec fn le_string(t: Seq<char>) -> Option<(Seq<char>, Seq<char>)>
    decreases t.len(),
{
    if t.len() == 0 {
        None
    } else if t[0] == '"' {
        Some((Seq::<char>::empty(), t.skip(1)))
    } else if t[0] == '\\' {
        if t.len() < 2 {
            None
        } else {
            match le_string(t.skip(2)) {
                Some((s, resto)) => Some((seq![t[1]] + s, resto)),
                None => None,
            }
        }
    } else {
        match le_string(t.skip(1)) {
            Some((s, resto)) => Some((seq![t[0]] + s, resto)),
            None => None,
        }
    }
}

/// O texto escapado lê-se de volta: quem lê a string JSON recupera o texto e
/// para nas aspas que a fecham.
pub proof fn lei_escape_ida_e_volta(s: Seq<char>, resto: Seq<char>)
    ensures
        le_string(escapa(s) + seq!['"'] + resto) == Some((s, resto)),
    decreases s.len(),
{
    if s.len() == 0 {
        let t = escapa(s) + seq!['"'] + resto;
        assert(t[0] == '"');
        assert(t.skip(1) =~= resto);
        assert(s =~= Seq::<char>::empty());
    } else {
        lema_escapa_primeiro(s);
        let t = escapa(s) + seq!['"'] + resto;
        let e = escapado(s[0]);
        let cauda = s.drop_first();
        let u = escapa(cauda) + seq!['"'] + resto;
        lei_escape_ida_e_volta(cauda, resto);
        assert(t =~= e + u);
        assert(t.skip(e.len() as int) =~= u);
        assert(seq![s[0]] + cauda =~= s);
        assert(t[0] == e[0]);
        if e.len() == 2 {
            assert(t[1] == e[1]);
        }
    }
}

/// Escapar começa pelo primeiro caractere.
proof fn lema_escapa_primeiro(s: Seq<char>)
    requires
        s.len() > 0,
    ensures
        escapa(s) == escapado(s[0]) + escapa(s.drop_first()),
    decreases s.len(),
{
    let a = s.drop_last();
    let b = s.drop_first();
    if s.len() == 1 {
        assert(a =~= Seq::<char>::empty());
        assert(b =~= Seq::<char>::empty());
        assert(escapa(a) + escapado(s[0]) =~= escapado(s[0]) + escapa(b));
    } else {
        lema_escapa_primeiro(a);
        assert(a.drop_first() =~= b.drop_last());
        assert(b.last() == s.last());
        assert(a[0] == s[0]);
        assert(escapado(s[0]) + escapa(b.drop_last()) + escapado(s.last()) =~= escapado(s[0]) + (
        escapa(b.drop_last()) + escapado(s.last())));
    }
}

// ---------------------------------------------------------------------------
// Raios
// ---------------------------------------------------------------------------

/// Um flash a desenhar. `lon` e `lat` vêm com 4 casas (~11 m; a posição do flash
/// já é da ordem de km); `energia`, em notação científica curta.
#[derive(Debug)]
pub struct Ponto {
    pub tempo: Option<Timestamp>,
    pub lon: String,
    pub lat: String,
    pub qualidade: u32,
    pub energia: Option<String>,
}

/// O texto GeoJSON de um flash. Sem energia, `null`.
pub open spec fn feature_de(p: Ponto) -> Seq<char> {
    let e = match p.energia {
        Some(e) => e@,
        None => "null"@,
    };
    "{\"type\":\"Feature\",\"geometry\":{\"type\":\"Point\",\"coordinates\":["@ + p.lon@ + ","@
        + p.lat@ + "]},\"properties\":{\"t\":"@ + texto::inteiro(em_millis(p.tempo)) + ",\"q\":"@
        + texto::decimal(p.qualidade as nat) + ",\"e\":"@ + e + "}}"@
}

/// O texto de um flash traz, nesta ordem, a longitude, a latitude, os
/// milissegundos, a qualidade e a energia (`null` se falta).
pub proof fn lei_feature(p: Ponto)
    ensures
        ({
            let cabeca =
                "{\"type\":\"Feature\",\"geometry\":{\"type\":\"Point\",\"coordinates\":["@;
            let t = feature_de(p);
            let n = cabeca.len() as int;
            let m = n + p.lon@.len() + 1;
            &&& t.take(n) == cabeca
            &&& t.subrange(n, n + p.lon@.len()) == p.lon@
            &&& t[n + p.lon@.len()] == ','
            &&& t.subrange(m, m + p.lat@.len()) == p.lat@
            &&& t.skip(m + p.lat@.len()) == "]},\"properties\":{\"t\":"@ + texto::inteiro(
                em_millis(p.tempo),
            ) + ",\"q\":"@ + texto::inteiro(p.qualidade as int) + ",\"e\":"@ + (if p.energia is Some {
                p.energia->0@
            } else {
                "null"@
            }) + "}}"@
        }),
{
    reveal_strlit(",");
    let cabeca = "{\"type\":\"Feature\",\"geometry\":{\"type\":\"Point\",\"coordinates\":["@;
    let t = feature_de(p);
    let n = cabeca.len() as int;
    let m = n + p.lon@.len() + 1;
    let cauda = "]},\"properties\":{\"t\":"@ + texto::inteiro(em_millis(p.tempo)) + ",\"q\":"@
        + texto::inteiro(p.qualidade as int) + ",\"e\":"@ + (if p.energia is Some {
        p.energia->0@
    } else {
        "null"@
    }) + "}}"@;
    assert(t =~= cabeca + p.lon@ + ","@ + p.lat@ + cauda);
    assert(t.take(n) =~= cabeca);
    assert(t.subrange(n, n + p.lon@.len()) =~= p.lon@);
    assert(t.subrange(m, m + p.lat@.len()) =~= p.lat@);
    assert(t.skip(m + p.lat@.len()) =~= cauda);
}

fn feature(p: &Ponto) -> (r: String)
    requires
        tem_millis(p.tempo),
    ensures
        r@ == feature_de(*p),
{
    let mut s = "{\"type\":\"Feature\",\"geometry\":{\"type\":\"Point\",\"coordinates\":[".to_owned();
    s.append(p.lon.as_str());
    s.append(",");
    s.append(p.lat.as_str());
    s.append("]},\"properties\":{\"t\":");
    s.append(texto::escreve_inteiro(millis(&p.tempo) as i128).as_str());
    s.append(",\"q\":");
    s.append(texto::escreve_natural(p.qualidade as u128).as_str());
    s.append(",\"e\":");
    match &p.energia {
        Some(e) => s.append(e.as_str()),
        None => s.append("null"),
    }
    s.append("}}");
    s
}

/// As features de uma página.
pub open spec fn features_de(pontos: Seq<Ponto>) -> Seq<Seq<char>> {
    pontos.map_values(|p: Ponto| feature_de(p))
}

/// Cada flash vira uma feature, na ordem: as de duas páginas são as da primeira e
/// depois as da segunda.
pub proof fn lei_features(a: Seq<Ponto>, b: Seq<Ponto>, p: Ponto)
    ensures
        features_de(a + b) == features_de(a) + features_de(b),
        features_de(seq![p]) == seq![feature_de(p)],
        features_de(a).len() == a.len(),
{
    assert(features_de(a + b) =~= features_de(a) + features_de(b));
    assert(features_de(seq![p]) =~= seq![feature_de(p)]);
}

/// A coleta dos flashes da janela, página a página.
pub struct ColetaRaios {
    itens: Vec<String>,
    paginas: u32,
    cursor: Option<String>,
}

impl ColetaRaios {
    /// As features colhidas até aqui.
    pub closed spec fn itens(self) -> Seq<Seq<char>> {
        texto::textos(self.itens@)
    }

    /// Quantas páginas já vieram.
    pub closed spec fn paginas(self) -> int {
        self.paginas as int
    }

    /// O cursor da próxima página.
    pub closed spec fn cursor(self) -> Option<Seq<char>> {
        match self.cursor {
            Some(c) => Some(c@),
            None => None,
        }
    }

    /// Começa a coleta.
    pub fn nova() -> (r: ColetaRaios)
        ensures
            r.itens() == Seq::<Seq<char>>::empty(),
            r.paginas() == 0,
            r.cursor() is None,
    {
        let r = ColetaRaios { itens: Vec::new(), paginas: 0, cursor: None };
        assert(r.itens() =~= Seq::<Seq<char>>::empty());
        r
    }

    /// O pedido da próxima página: toda a cobertura, desde `de`, com o tamanho
    /// de página do servidor.
    pub fn pedido<F>(&self, de: Timestamp, qualidade_max: Option<u32>) -> (r: ListarRaiosRequest<F>)
        ensures
            r.fonte is None,
            r.oeste is None && r.sul is None && r.leste is None && r.norte is None,
            r.de == Some(de),
            r.ate is None,
            r.qualidade_max == qualidade_max,
            r.limite == 0,
            match r.cursor {
                Some(c) => self.cursor() == Some(c@),
                None => self.cursor() is None,
            },
    {
        ListarRaiosRequest {
            fonte: None,
            oeste: None,
            sul: None,
            leste: None,
            norte: None,
            de: Some(de),
            ate: None,
            qualidade_max,
            limite: 0,
            cursor: self.cursor.clone(),
        }
    }

    /// Recebe uma página. Devolve se há outra a pedir: sim se o servidor deu um
    /// cursor e o teto de páginas não chegou.
    pub fn recebe(&mut self, pontos: &Vec<Ponto>, proximo: Option<String>) -> (r: bool)
        requires
            old(self).paginas() < MAX_PAGINAS_RAIOS,
            forall|i: int| 0 <= i < pontos@.len() ==> tem_millis((#[trigger] pontos@[i]).tempo),
        ensures
            final(self).itens() == old(self).itens() + features_de(pontos@),
            final(self).itens().len() == old(self).itens().len() + pontos@.len(),
            forall|i: int|
                0 <= i < pontos@.len() ==> final(self).itens()[old(self).itens().len() + i]
                    == feature_de(#[trigger] pontos@[i]),
            final(self).paginas() == old(self).paginas() + 1,
            r <==> proximo is Some && final(self).paginas() < MAX_PAGINAS_RAIOS,
            proximo matches Some(c) ==> final(self).cursor() == Some(c@),
            proximo is None ==> final(self).cursor() == old(self).cursor(),
    {
        let ghost base = self.itens();
        let ghost cursor = self.cursor();
        let ghost paginas = self.paginas();
        let mut i: usize = 0;
        assert(base + features_de(pontos@.take(0)) =~= base);
        while i < pontos.len()
            invariant
                i <= pontos@.len(),
                forall|i: int| 0 <= i < pontos@.len() ==> tem_millis((#[trigger] pontos@[i]).tempo),
                self.itens() == base + features_de(pontos@.take(i as int)),
                self.cursor() == cursor,
                self.paginas() == paginas,
            decreases pontos@.len() - i,
        {
            let ghost antes = self.itens();
            self.itens.push(feature(&pontos[i]));
            assert(self.itens() =~= antes.push(feature_de(pontos@[i as int])));
            assert(features_de(pontos@.take(i + 1)) =~= features_de(pontos@.take(i as int)).push(
                feature_de(pontos@[i as int]),
            ));
            i = i + 1;
            assert(self.itens() =~= base + features_de(pontos@.take(i as int)));
        }
        assert(pontos@.take(i as int) =~= pontos@);
        self.paginas = self.paginas + 1;
        match proximo {
            Some(c) => {
                self.cursor = Some(c);
                self.paginas < MAX_PAGINAS_RAIOS
            },
            None => false,
        }
    }

    /// O GeoJSON dos flashes colhidos.
    pub fn documento(&self, agora_millis: u128, minutos: u32) -> (r: String)
        ensures
            r@ == "{\"type\":\"FeatureCollection\",\"gerado\":"@ + texto::decimal(
                agora_millis as nat,
            ) + ",\"janela_min\":"@ + texto::decimal(minutos as nat) + ",\"total\":"@
                + texto::decimal(self.itens().len()) + ",\"features\":["@ + texto::junta(
                self.itens(),
                ","@,
            ) + "]}"@,
    {
        let mut s = "{\"type\":\"FeatureCollection\",\"gerado\":".to_owned();
        s.append(texto::escreve_natural(agora_millis).as_str());
        s.append(",\"janela_min\":");
        s.append(texto::escreve_natural(minutos as u128).as_str());
        s.append(",\"total\":");
        s.append(texto::escreve_natural(self.itens.len() as u128).as_str());
        s.append(",\"features\":[");
        s.append(texto::junte(&self.itens, 0, self.itens.len(), ",").as_str());
        s.append("]}");
        assert(self.itens().subrange(0, self.itens().len() as int) =~= self.itens());
        s
    }
}

// ---------------------------------------------------------------------------
// Frames
// ---------------------------------------------------------------------------

/// Um frame de fundo: quando começa e de onde vem. Sem URL (destino local, que
/// não assina) não há o que desenhar.
#[derive(Debug)]
pub struct Fundo {
    pub inicio: Option<Timestamp>,
    pub url: String,
}

/// O texto JSON de um frame de fundo.
pub open spec fn fundo_de(f: Fundo) -> Seq<char> {
    "{\"t\":"@ + texto::inteiro(em_millis(f.inicio)) + ",\"url\":\""@ + escapa(f.url@) + "\"}"@
}

fn fundo(f: &Fundo) -> (r: String)
    requires
        tem_millis(f.inicio),
    ensures
        r@ == fundo_de(*f),
{
    let mut s = "{\"t\":".to_owned();
    s.append(texto::escreve_inteiro(millis(&f.inicio) as i128).as_str());
    s.append(",\"url\":\"");
    s.append(escapar_json(f.url.as_str()).as_str());
    s.append("\"}");
    s
}

/// Os textos dos frames que têm URL, na ordem.
pub open spec fn fundos_de(frames: Seq<Fundo>) -> Seq<Seq<char>>
    decreases frames.len(),
{
    if frames.len() == 0 {
        Seq::<Seq<char>>::empty()
    } else {
        let antes = fundos_de(frames.drop_last());
        if frames.last().url@.len() == 0 {
            antes
        } else {
            antes.push(fundo_de(frames.last()))
        }
    }
}

/// Os frames de duas páginas são os da primeira e depois os da segunda; o frame
/// sem URL não aparece, e o que tem URL aparece uma vez, com os seus milissegundos
/// e a URL que se lê de volta da string.
pub proof fn lei_fundos(a: Seq<Fundo>, b: Seq<Fundo>, f: Fundo)
    ensures
        fundos_de(a + b) == fundos_de(a) + fundos_de(b),
        f.url@.len() == 0 ==> fundos_de(seq![f]) == Seq::<Seq<char>>::empty(),
        f.url@.len() > 0 ==> fundos_de(seq![f]) == seq![fundo_de(f)],
        ({
            let cabeca = "{\"t\":"@ + texto::inteiro(em_millis(f.inicio)) + ",\"url\":\""@;
            let t = fundo_de(f);
            &&& t.len() >= cabeca.len()
            &&& t.take(cabeca.len() as int) == cabeca
            &&& le_string(t.skip(cabeca.len() as int)) == Some((f.url@, seq!['}']))
        }),
    decreases b.len(),
{
    let vazio = Seq::<Seq<char>>::empty();
    assert(seq![f].drop_last() =~= Seq::<Fundo>::empty());
    assert(fundos_de(Seq::<Fundo>::empty()) == vazio);
    if f.url@.len() > 0 {
        assert(fundos_de(seq![f]) =~= seq![fundo_de(f)]);
    }
    let cabeca = "{\"t\":"@ + texto::inteiro(em_millis(f.inicio)) + ",\"url\":\""@;
    let t = fundo_de(f);
    reveal_strlit("\"}");
    let resto = escapa(f.url@) + seq!['"'] + seq!['}'];
    assert(t =~= cabeca + resto);
    assert(t.take(cabeca.len() as int) =~= cabeca);
    assert(t.skip(cabeca.len() as int) =~= resto);
    lei_escape_ida_e_volta(f.url@, seq!['}']);
    if b.len() == 0 {
        assert(a + b =~= a);
        assert(fundos_de(a) + fundos_de(b) =~= fundos_de(a));
    } else {
        assert((a + b).drop_last() =~= a + b.drop_last());
        lei_fundos(a, b.drop_last(), f);
        assert(fundos_de(a + b) =~= fundos_de(a) + fundos_de(b));
    }
}

/// A coleta dos frames de fundo da janela, página a página.
pub struct ColetaFrames {
    itens: Vec<String>,
    paginas: u32,
    cursor: Option<String>,
}

impl ColetaFrames {
    /// Os textos colhidos até aqui.
    pub closed spec fn itens(self) -> Seq<Seq<char>> {
        texto::textos(self.itens@)
    }

    /// Quantas páginas já vieram.
    pub closed spec fn paginas(self) -> int {
        self.paginas as int
    }

    /// O cursor da próxima página.
    pub closed spec fn cursor(self) -> Option<Seq<char>> {
        match self.cursor {
            Some(c) => Some(c@),
            None => None,
        }
    }

    /// Começa a coleta.
    pub fn nova() -> (r: ColetaFrames)
        ensures
            r.itens() == Seq::<Seq<char>>::empty(),
            r.paginas() == 0,
            r.cursor() is None,
    {
        let r = ColetaFrames { itens: Vec::new(), paginas: 0, cursor: None };
        assert(r.itens() =~= Seq::<Seq<char>>::empty());
        r
    }

    /// O pedido da próxima página do produto, desde `de`.
    pub fn pedido(&self, produto: &str, de: Timestamp) -> (r: ListarFramesRequest)
        ensures
            r.produto@ == produto@,
            r.canal is None,
            r.fonte is None,
            r.de == Some(de),
            r.ate is None,
            r.limite == 0,
            match r.cursor {
                Some(c) => self.cursor() == Some(c@),
                None => self.cursor() is None,
            },
    {
        ListarFramesRequest {
            produto: produto.to_owned(),
            canal: None,
            fonte: None,
            de: Some(de),
            ate: None,
            limite: 0,
            cursor: self.cursor.clone(),
        }
    }

    /// Recebe uma página. Devolve se há outra a pedir: sim se o servidor deu um
    /// cursor e o teto de páginas não chegou.
    pub fn recebe(&mut self, frames: &Vec<Fundo>, proximo: Option<String>) -> (r: bool)
        requires
            old(self).paginas() < MAX_PAGINAS_FRAMES,
            forall|i: int|
                0 <= i < frames@.len() && frames@[i].url@.len() > 0 ==> tem_millis(
                    (#[trigger] frames@[i]).inicio,
                ),
        ensures
            final(self).itens() == old(self).itens() + fundos_de(frames@),
            final(self).paginas() == old(self).paginas() + 1,
            r <==> proximo is Some && final(self).paginas() < MAX_PAGINAS_FRAMES,
            proximo matches Some(c) ==> final(self).cursor() == Some(c@),
            proximo is None ==> final(self).cursor() == old(self).cursor(),
    {
        let ghost base = self.itens();
        let ghost cursor = self.cursor();
        let ghost paginas = self.paginas();
        let mut i: usize = 0;
        assert(base + fundos_de(frames@.take(0)) =~= base);
        while i < frames.len()
            invariant
                i <= frames@.len(),
                forall|i: int|
                    0 <= i < frames@.len() && frames@[i].url@.len() > 0 ==> tem_millis(
                        (#[trigger] frames@[i]).inicio,
                    ),
                self.itens() == base + fundos_de(frames@.take(i as int)),
                self.cursor() == cursor,
                self.paginas() == paginas,
            decreases frames@.len() - i,
        {
            let ghost antes = self.itens();
            proof {
                let t = frames@.take(i + 1);
                assert(t.drop_last() =~= frames@.take(i as int));
                assert(t.last() == frames@[i as int]);
            }
            if !frames[i].url.as_str().is_empty() {
                self.itens.push(fundo(&frames[i]));
                assert(self.itens() =~= antes.push(fundo_de(frames@[i as int])));
            }
            i = i + 1;
            assert(self.itens() =~= base + fundos_de(frames@.take(i as int)));
        }
        assert(frames@.take(i as int) =~= frames@);
        self.paginas = self.paginas + 1;
        match proximo {
            Some(c) => {
                self.cursor = Some(c);
                self.paginas < MAX_PAGINAS_FRAMES
            },
            None => false,
        }
    }

    /// O JSON dos frames colhidos.
    pub fn documento(&self) -> (r: String)
        ensures
            r@ == "["@ + texto::junta(self.itens(), ","@) + "]"@,
    {
        let mut s = "[".to_owned();
        s.append(texto::junte(&self.itens, 0, self.itens.len(), ",").as_str());
        s.append("]");
        assert(self.itens().subrange(0, self.itens().len() as int) =~= self.itens());
        s
    }
}

} // verus!
