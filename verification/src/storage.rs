//! Para onde vão os `.pmtiles` (AWS S3 com credenciais do ambiente, ou filesystem
//! local para dev/teste) e o caminho de cada objeto no bucket.

use crate::config;
use crate::config::DestinationConfig;
use crate::nodd;
use crate::texto;
use object_store::path::Path as ObjPath;
use vstd::prelude::*;

verus! {

broadcast use vstd::string::group_string_axioms;

/// O destino dos tiles.
#[derive(Debug)]
pub enum Destino {
    /// Diretório local. O filesystem não pré-assina: as URLs vêm vazias.
    Local(String),
    /// Bucket S3.
    S3 { bucket: String, region: String },
}

/// O destino que a configuração pede: `local_path`, se houver, vence o bucket.
pub fn destino(cfg: &DestinationConfig) -> (r: Destino)
    ensures
        match r {
            Destino::Local(path) => cfg.local_path matches Some(p) && path@ == p@,
            Destino::S3 { bucket, region } => cfg.local_path is None && bucket@ == cfg.bucket@
                && region@ == cfg.region@,
        },
{
    match &cfg.local_path {
        Some(p) => Destino::Local(p.clone()),
        None => Destino::S3 { bucket: cfg.bucket.clone(), region: cfg.region.clone() },
    }
}

// ---------------------------------------------------------------------------
// Caminho dos objetos
// ---------------------------------------------------------------------------

/// O byte não passa como está num segmento: controle, fora do ASCII, ou um dos
/// caracteres que os buckets recomendam evitar.
pub open spec fn evitado(b: u8) -> bool {
    ||| b < 32
    ||| b >= 127
    ||| seq!['"', '#', '%', '*', '/', '<', '>', '?', '[', '\\', ']', '^', '`', '{', '|', '}', '~']
        .contains(b as char)
}

/// Os bytes de um segmento: os evitados em percent-encoding, os outros como são.
pub open spec fn bytes_codificados(s: Seq<u8>) -> Seq<char>
    decreases s.len(),
{
    if s.len() == 0 {
        Seq::<char>::empty()
    } else {
        let c = if evitado(s[0]) {
            seq!['%', config::hexa(s[0] as int / 16), config::hexa(s[0] as int % 16)]
        } else {
            seq![s[0] as char]
        };
        c + bytes_codificados(s.drop_first())
    }
}

/// Um segmento de caminho: os relativos, `.` e `..`, saem codificados inteiros.
pub open spec fn segmento_codificado(s: Seq<char>) -> Seq<char> {
    if s == "."@ {
        "%2E"@
    } else if s == ".."@ {
        "%2E%2E"@
    } else {
        bytes_codificados(vstd::utf8::encode_utf8(s))
    }
}

/// O caminho de uma chave: os seus segmentos não vazios, codificados.
pub open spec fn caminho_codificado(chave: Seq<char>) -> Seq<char> {
    texto::junta(
        nodd::segmentos(chave).map_values(|s: Seq<char>| segmento_codificado(s)),
        "/"@,
    )
}

/// `object_store::path::Path::from`: divide a chave nas barras, descarta os
/// segmentos vazios e codifica os outros.
#[verifier::external_body]
fn codifica(chave: &str) -> (r: String)
    ensures
        r@ == caminho_codificado(chave@),
{
    ObjPath::from(chave).to_string()
}

/// O caminho, no bucket, do objeto de uma chave (ou dos que têm um prefixo): o
/// que se lista, se baixa, se sobe e se assina.
pub fn caminho(chave: &str) -> (r: String)
    ensures
        r@ == caminho_codificado(chave@),
{
    codifica(chave)
}

/// Letra ou algarismo ASCII, `-`, `_` ou `.`.
pub open spec fn caractere_simples(c: char) -> bool {
    ||| 'a' <= c <= 'z'
    ||| 'A' <= c <= 'Z'
    ||| '0' <= c <= '9'
    ||| c == '-'
    ||| c == '_'
    ||| c == '.'
}

/// Um segmento só de caracteres simples, que não é `.` nem `..`.
pub open spec fn segmento_simples(s: Seq<char>) -> bool {
    &&& s != "."@
    &&& s != ".."@
    &&& forall|i: int| 0 <= i < s.len() ==> caractere_simples(#[trigger] s[i])
}

/// Uma chave de segmentos simples, como as do NODD, é o seu próprio caminho, a
/// menos das barras a mais.
pub proof fn lei_caminho_de_chave_simples(chave: Seq<char>)
    requires
        forall|i: int|
            0 <= i < nodd::segmentos(chave).len() ==> segmento_simples(
                #[trigger] nodd::segmentos(chave)[i],
            ),
    ensures
        caminho_codificado(chave) == texto::junta(nodd::segmentos(chave), "/"@),
{
    let p = nodd::segmentos(chave);
    let q = p.map_values(|s: Seq<char>| segmento_codificado(s));
    assert forall|i: int| 0 <= i < p.len() implies q[i] == #[trigger] p[i] by {
        lema_simples_passa(p[i]);
    }
    assert(q =~= p);
}

/// Caracteres simples não se codificam.
proof fn lema_simples_passa(s: Seq<char>)
    requires
        forall|i: int| 0 <= i < s.len() ==> caractere_simples(#[trigger] s[i]),
    ensures
        bytes_codificados(vstd::utf8::encode_utf8(s)) == s,
    decreases s.len(),
{
    if s.len() > 0 {
        let c = s[0];
        let u = c as u32;
        assert(caractere_simples(c));
        assert(vstd::utf8::leading_byte_width_1(u) == u) by (bit_vector)
            requires
                u < 128,
        ;
        let e = vstd::utf8::encode_utf8(s);
        let b = vstd::utf8::leading_byte_width_1(u);
        assert(e =~= seq![b] + vstd::utf8::encode_utf8(s.drop_first()));
        assert(e.drop_first() =~= vstd::utf8::encode_utf8(s.drop_first()));
        assert forall|i: int| 0 <= i < s.drop_first().len() implies caractere_simples(
            #[trigger] s.drop_first()[i],
        ) by {
            assert(caractere_simples(s[i + 1]));
        }
        lema_simples_passa(s.drop_first());
        assert(b as char == c);
        assert(!evitado(b));
        assert(s =~= seq![c] + s.drop_first());
    } else {
        assert(s =~= Seq::<char>::empty());
    }
}

} // verus!
