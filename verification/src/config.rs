//! Configuração do sincronizador.
//!
//! Os valores vêm de um arquivo TOML. As credenciais do destino NÃO ficam aqui:
//! vêm do ambiente (`AWS_ACCESS_KEY_ID` / `AWS_SECRET_ACCESS_KEY`).

use crate::texto;
use vstd::prelude::*;

verus! {

broadcast use vstd::string::group_string_axioms;

/// Configuração raiz do sincronizador.
#[derive(Debug, Clone)]
pub struct Config {
    pub source: SourceConfig,
    pub destination: DestinationConfig,
    /// Produtos a processar. Vazio é válido.
    pub products: Vec<ProductConfig>,
    /// Parâmetros do pipeline de processamento.
    pub pipeline: PipelineConfig,
    /// Conexão com o Postgres do catálogo. Opcional: `check` não precisa de
    /// banco; `run`/`migrate` exigem.
    pub database: Option<DatabaseConfig>,
    /// Servidor gRPC de consulta ao catálogo (subcomando `serve`).
    pub grpc: GrpcConfig,
}

/// Parâmetros do servidor gRPC (`serve`).
#[derive(Debug, Clone)]
pub struct GrpcConfig {
    /// Endereço de bind (`host:porta`). Sobrescrevível por `--listen`.
    pub listen: String,
    /// Validade (segundos) das URLs pré-assinadas devolvidas em `Frame.url`.
    pub url_ttl_secs: u64,
    /// Teto de itens por página (também o default quando o pedido traz
    /// `limite = 0`).
    pub limite_pagina: u32,
}

/// Parâmetros do pipeline de ingest+processamento.
#[derive(Debug, Clone)]
pub struct PipelineConfig {
    /// Diretório de trabalho para o bruto efêmero e artefatos intermediários.
    pub work_dir: String,
    /// Arquivo de rampa de cor (gdaldem color-relief) para o C13. Em °C.
    pub c13_color_ramp: String,
    /// Caminho do índice redb (cache quente do dedupe).
    pub state_path: String,
}

/// Conexão com o Postgres do catálogo (campos discretos; a URL é montada em
/// [`DatabaseConfig::url`]).
#[derive(Debug, Clone)]
pub struct DatabaseConfig {
    pub host: String,
    pub port: u16,
    pub user: String,
    pub password: String,
    pub dbname: String,
    /// Schema do catálogo: identificador simples `[a-z0-9_]`.
    pub schema: String,
    /// `sslmode` do libpq (`disable`, `prefer`, `require`, ...). Omitido =
    /// default do driver.
    pub sslmode: Option<String>,
}

/// Bucket de origem no NOAA NODD: leitura anônima, sem assinatura.
#[derive(Debug, Clone)]
pub struct SourceConfig {
    /// Ex.: `noaa-goes19`.
    pub bucket: String,
    /// Região do bucket público. NODD vive em `us-east-1`.
    pub region: String,
}

/// Bucket de destino: AWS S3 (ou filesystem local via `local_path`, dev/teste).
#[derive(Debug, Clone)]
pub struct DestinationConfig {
    pub bucket: String,
    pub region: String,
    /// Se definido, grava no filesystem local sob este caminho, ignorando o S3.
    /// O `prefix` ainda é aplicado às chaves.
    pub local_path: Option<String>,
    /// Prefixo-raiz das chaves no destino. Ex.: `goes19`.
    pub prefix: String,
}

/// Um produto GOES-19 a espelhar (ex.: ABI C13 full disk, GLM LCFA).
#[derive(Debug, Clone)]
pub struct ProductConfig {
    /// Identificador interno/legível. Ex.: `abi-l2-cmipf-c13`.
    pub name: String,
    /// Prefixo do produto no bucket de origem. Ex.: `ABI-L2-CMIPF`.
    pub source_prefix: String,
    /// Canal ABI a filtrar (ex.: `C13`). `None` = sem filtro de canal (ex.: GLM).
    pub channel: Option<String>,
    /// Intervalo de polling em segundos (a cadência real é por produto).
    pub poll_interval_secs: u64,
}

/// Por que uma configuração foi recusada.
#[derive(Debug)]
pub enum ErroConfig {
    SourceBucketVazio,
    DestinationBucketVazio,
    ProductNameVazio,
    SourcePrefixVazio { produto: String },
}

// ---------------------------------------------------------------------------
// Modelos
// ---------------------------------------------------------------------------

/// Bytes que passam sem codificação em userinfo (RFC 3986 unreserved).
pub open spec fn livre(b: u8) -> bool {
    ||| 65 <= b <= 90
    ||| 97 <= b <= 122
    ||| 48 <= b <= 57
    ||| b == 45
    ||| b == 46
    ||| b == 95
    ||| b == 126
}

/// O algarismo hexadecimal maiúsculo de valor `d` (0 a 15).
pub open spec fn hexa(d: int) -> char {
    if d < 10 {
        (d + 48) as char
    } else {
        (d + 55) as char
    }
}

/// Um byte em percent-encoding.
pub open spec fn pct_byte(b: u8) -> Seq<char> {
    if livre(b) {
        seq![b as char]
    } else {
        seq!['%', hexa(b as int / 16), hexa(b as int % 16)]
    }
}

/// Uma sequência de bytes em percent-encoding.
pub open spec fn pct_bytes(s: Seq<u8>) -> Seq<char>
    decreases s.len(),
{
    if s.len() == 0 {
        Seq::<char>::empty()
    } else {
        pct_byte(s[0]) + pct_bytes(s.drop_first())
    }
}

/// Um texto em percent-encoding: os bytes da sua forma UTF-8.
pub open spec fn pct_texto(s: Seq<char>) -> Seq<char> {
    pct_bytes(vstd::utf8::encode_utf8(s))
}

impl DatabaseConfig {
    /// A parte da URL até o nome do banco.
    pub open spec fn url_base(self) -> Seq<char> {
        "postgres://"@ + pct_texto(self.user@) + ":"@ + pct_texto(self.password@) + "@"@
            + self.host@ + ":"@ + texto::decimal(self.port as nat) + "/"@ + self.dbname@
    }

    /// A URL de conexão.
    pub open spec fn url_modelo(self) -> Seq<char> {
        match self.sslmode {
            Some(modo) if modo@.len() > 0 => self.url_base() + "?sslmode="@ + modo@,
            _ => self.url_base(),
        }
    }
}

/// O produto tem nome e prefixo de origem.
pub open spec fn produto_valido(p: ProductConfig) -> bool {
    p.name@.len() > 0 && p.source_prefix@.len() > 0
}

/// `k` é o primeiro produto inválido da lista.
pub open spec fn primeiro_invalido(ps: Seq<ProductConfig>, k: int) -> bool {
    &&& 0 <= k < ps.len()
    &&& !produto_valido(ps[k])
    &&& forall|i: int| 0 <= i < k ==> produto_valido(#[trigger] ps[i])
}

impl Config {
    /// Os dois buckets têm nome.
    pub open spec fn buckets_validos(self) -> bool {
        self.source.bucket@.len() > 0 && self.destination.bucket@.len() > 0
    }

    /// A configuração é aceita.
    pub open spec fn aceita(self) -> bool {
        &&& self.buckets_validos()
        &&& forall|i: int|
            0 <= i < self.products@.len() ==> produto_valido(#[trigger] self.products@[i])
    }
}

// ---------------------------------------------------------------------------
// Leis
// ---------------------------------------------------------------------------

/// A configuração aceita é a que não deixa vazio nenhum dos nomes: os dois
/// buckets e, de cada produto, o nome e o prefixo de origem.
pub proof fn lei_config_aceita(c: Config)
    ensures
        c.aceita() <==> {
            &&& c.source.bucket@.len() > 0
            &&& c.destination.bucket@.len() > 0
            &&& forall|i: int|
                0 <= i < c.products@.len() ==> (#[trigger] c.products@[i]).name@.len() > 0
                    && c.products@[i].source_prefix@.len() > 0
        },
{
    if c.aceita() {
        assert forall|i: int| 0 <= i < c.products@.len() implies (
        #[trigger] c.products@[i]).name@.len() > 0 && c.products@[i].source_prefix@.len() > 0 by {
            assert(produto_valido(c.products@[i]));
        }
    }
}

/// A URL de conexão traz o usuário e a senha codificados e o resto como está; o
/// `sslmode` vazio vale o mesmo que nenhum, e o que se pede só acrescenta ao fim.
pub proof fn lei_url(db: DatabaseConfig)
    ensures
        ({
            let sem_modo = "postgres://"@ + pct_texto(db.user@) + ":"@ + pct_texto(db.password@)
                + "@"@ + db.host@ + ":"@ + texto::inteiro(db.port as int) + "/"@ + db.dbname@;
            &&& db.sslmode is None ==> db.url_modelo() == sem_modo
            &&& db.sslmode is Some && db.sslmode->0@.len() == 0 ==> db.url_modelo() == sem_modo
            &&& db.sslmode is Some && db.sslmode->0@.len() > 0 ==> db.url_modelo() == sem_modo
                + "?sslmode="@ + db.sslmode->0@
        }),
{
}

/// Em percent-encoding só aparecem caracteres livres e `%`: nenhum separador de
/// URL (`:`, `@`, `/`, `?`) escapa da senha ou do usuário.
pub proof fn lei_pct_sem_reservados(s: Seq<char>)
    ensures
        forall|i: int|
            0 <= i < pct_texto(s).len() ==> {
                let c = #[trigger] pct_texto(s)[i];
                c == '%' || (c as int) < 128 && livre(c as u8)
            },
{
    lema_pct_livres(vstd::utf8::encode_utf8(s));
}

proof fn lema_pct_livres(s: Seq<u8>)
    ensures
        forall|i: int|
            0 <= i < pct_bytes(s).len() ==> {
                let c = #[trigger] pct_bytes(s)[i];
                c == '%' || (c as int) < 128 && livre(c as u8)
            },
    decreases s.len(),
{
    if s.len() > 0 {
        lema_pct_livres(s.drop_first());
        let a = pct_byte(s[0]);
        assert forall|i: int| 0 <= i < pct_bytes(s).len() implies {
            let c = #[trigger] pct_bytes(s)[i];
            c == '%' || (c as int) < 128 && livre(c as u8)
        } by {
            if i >= a.len() {
                assert(pct_bytes(s)[i] == pct_bytes(s.drop_first())[i - a.len()]);
            } else {
                assert(pct_bytes(s)[i] == a[i]);
            }
        }
    }
}

/// O percent-encoding é byte a byte: letra, algarismo, `-`, `.`, `_` e `~` passam
/// como são; qualquer outro byte vira `%` e o seu valor em dois algarismos
/// hexadecimais maiúsculos.
pub proof fn lei_pct_byte_a_byte(a: Seq<u8>, b: Seq<u8>, x: u8)
    ensures
        pct_bytes(a + b) == pct_bytes(a) + pct_bytes(b),
        ({
            let c = x as char;
            let t = pct_bytes(seq![x]);
            let passa = 'A' <= c <= 'Z' || 'a' <= c <= 'z' || '0' <= c <= '9' || c == '-' || c
                == '.' || c == '_' || c == '~';
            &&& passa ==> t == seq![c]
            &&& !passa ==> {
                &&& t.len() == 3
                &&& t[0] == '%'
                &&& '0' <= t[1] <= '9' || 'A' <= t[1] <= 'F'
                &&& '0' <= t[2] <= '9' || 'A' <= t[2] <= 'F'
                &&& x == 16 * (t[1] as int - (if t[1] <= '9' {
                    48int
                } else {
                    55
                })) + (t[2] as int - (if t[2] <= '9' {
                    48int
                } else {
                    55
                }))
            }
        }),
    decreases a.len(),
{
    let vazio = Seq::<u8>::empty();
    assert(seq![x].drop_first() =~= vazio);
    assert(pct_bytes(vazio) =~= Seq::<char>::empty());
    assert(pct_bytes(seq![x]) =~= pct_byte(x));
    let alto = x as int / 16;
    let baixo = x as int % 16;
    assert(0 <= alto < 16 && 0 <= baixo < 16);
    assert(x == 16 * alto + baixo);
    assert(hexa(alto) as int == if alto < 10 { alto + 48 } else { alto + 55 });
    assert(hexa(baixo) as int == if baixo < 10 { baixo + 48 } else { baixo + 55 });
    if a.len() == 0 {
        assert(a + b =~= b);
        assert(pct_bytes(a) + pct_bytes(b) =~= pct_bytes(b));
    } else {
        assert((a + b).drop_first() =~= a.drop_first() + b);
        assert((a + b)[0] == a[0]);
        lei_pct_byte_a_byte(a.drop_first(), b, x);
        assert(pct_bytes(a + b) =~= pct_bytes(a) + pct_bytes(b));
    }
}

/// Textos diferentes têm percent-encodings diferentes: nada da senha se perde.
pub proof fn lei_pct_injetivo(a: Seq<char>, b: Seq<char>)
    requires
        pct_texto(a) == pct_texto(b),
    ensures
        a == b,
{
    lema_pct_injetivo(vstd::utf8::encode_utf8(a), vstd::utf8::encode_utf8(b));
    vstd::utf8::encode_utf8_decode_utf8(a);
    vstd::utf8::encode_utf8_decode_utf8(b);
}

proof fn lema_pct_injetivo(a: Seq<u8>, b: Seq<u8>)
    requires
        pct_bytes(a) == pct_bytes(b),
    ensures
        a == b,
    decreases a.len(),
{
    if a.len() == 0 {
        if b.len() > 0 {
            assert(pct_byte(b[0]).len() > 0);
        }
        assert(a =~= b);
    } else if b.len() == 0 {
        assert(pct_byte(a[0]).len() > 0);
    } else {
        let x = pct_bytes(a);
        let pa = pct_byte(a[0]);
        let pb = pct_byte(b[0]);
        assert(x[0] == pa[0]);
        assert(x[0] == pb[0]);
        if !livre(a[0]) {
            assert(!livre(b[0]));
            assert(x[1] == pa[1] && x[1] == pb[1]);
            assert(x[2] == pa[2] && x[2] == pb[2]);
            lema_hexa_injetivo(a[0] as int / 16, b[0] as int / 16);
            lema_hexa_injetivo(a[0] as int % 16, b[0] as int % 16);
        }
        assert(a[0] == b[0]);
        assert(pct_bytes(a.drop_first()) =~= x.skip(pa.len() as int));
        assert(pct_bytes(b.drop_first()) =~= x.skip(pa.len() as int));
        lema_pct_injetivo(a.drop_first(), b.drop_first());
        assert(a =~= seq![a[0]] + a.drop_first());
        assert(b =~= seq![b[0]] + b.drop_first());
    }
}

proof fn lema_hexa_injetivo(x: int, y: int)
    requires
        0 <= x < 16,
        0 <= y < 16,
        hexa(x) == hexa(y),
    ensures
        x == y,
{
    assert(hexa(x) as int == if x < 10 { x + 48 } else { x + 55 });
    assert(hexa(y) as int == if y < 10 { y + 48 } else { y + 55 });
}

// ---------------------------------------------------------------------------
// Funções
// ---------------------------------------------------------------------------

/// O algarismo hexadecimal de valor `d`.
fn escreve_hexa(d: u8) -> (c: char)
    requires
        d < 16,
    ensures
        c == hexa(d as int),
{
    if d < 10 {
        (d + 48) as char
    } else {
        (d + 55) as char
    }
}

/// Percent-encode de userinfo (RFC 3986 unreserved passa direto; o resto vira
/// `%XX`).
pub fn pct(s: &str) -> (r: String)
    ensures
        r@ == pct_texto(s@),
{
    let bytes = s.as_bytes();
    let ghost todos = bytes@;
    let mut out = String::new();
    let mut i: usize = 0;
    assert(todos.skip(0) =~= todos);
    while i < bytes.len()
        invariant
            bytes@ == todos,
            i <= todos.len(),
            out@ + pct_bytes(todos.skip(i as int)) == pct_bytes(todos),
        decreases todos.len() - i,
    {
        let b = bytes[i];
        let ghost antes = out@;
        let passa = (65 <= b && b <= 90) || (97 <= b && b <= 122) || (48 <= b && b <= 57)
            || b == 45 || b == 46 || b == 95 || b == 126;
        if passa {
            out.push(b as char);
        } else {
            out.push('%');
            out.push(escreve_hexa(b / 16));
            out.push(escreve_hexa(b % 16));
        }
        assert(out@ =~= antes + pct_byte(b));
        assert(todos.skip(i as int).drop_first() =~= todos.skip(i + 1));
        assert(out@ + pct_bytes(todos.skip(i + 1)) =~= antes + pct_bytes(todos.skip(i as int)));
        i = i + 1;
    }
    assert(out@ =~= out@ + pct_bytes(todos.skip(i as int)));
    out
}

impl DatabaseConfig {
    /// Monta a URL `postgres://...`, com `user`/`password` percent-encoded
    /// (suporta caracteres reservados na senha). O `sslmode` só entra quando
    /// presente e não vazio.
    pub fn url(&self) -> (r: String)
        ensures
            r@ == self.url_modelo(),
            self.sslmode is None || self.sslmode->0@.len() == 0 ==> r@ == "postgres://"@
                + pct_texto(self.user@) + ":"@ + pct_texto(self.password@) + "@"@ + self.host@
                + ":"@ + texto::inteiro(self.port as int) + "/"@ + self.dbname@,
            self.sslmode is Some && self.sslmode->0@.len() > 0 ==> r@ == "postgres://"@
                + pct_texto(self.user@) + ":"@ + pct_texto(self.password@) + "@"@ + self.host@
                + ":"@ + texto::inteiro(self.port as int) + "/"@ + self.dbname@ + "?sslmode="@
                + self.sslmode->0@,
    {
        let mut url = "postgres://".to_owned();
        url.append(pct(self.user.as_str()).as_str());
        url.append(":");
        url.append(pct(self.password.as_str()).as_str());
        url.append("@");
        url.append(self.host.as_str());
        url.append(":");
        url.append(texto::escreve_natural(self.port as u128).as_str());
        url.append("/");
        url.append(self.dbname.as_str());
        match &self.sslmode {
            Some(modo) => {
                if !modo.as_str().is_empty() {
                    url.append("?sslmode=");
                    url.append(modo.as_str());
                }
            },
            None => {},
        }
        url
    }
}

/// Região AWS padrão.
pub fn default_region() -> (r: String)
    ensures
        r@ == "us-east-1"@,
{
    "us-east-1".to_owned()
}

/// Intervalo de polling padrão, em segundos.
pub fn default_poll_secs() -> (r: u64)
    ensures
        r == 120,
{
    120
}

/// Diretório de trabalho padrão.
pub fn default_work_dir() -> (r: String)
    ensures
        r@ == "data"@,
{
    "data".to_owned()
}

/// Rampa de cor padrão do C13.
pub fn default_c13_ramp() -> (r: String)
    ensures
        r@ == "assets/c13_noaa.txt"@,
{
    "assets/c13_noaa.txt".to_owned()
}

/// Caminho padrão do índice redb.
pub fn default_state_path() -> (r: String)
    ensures
        r@ == "data/state.db"@,
{
    "data/state.db".to_owned()
}

/// Porta padrão do Postgres.
pub fn default_pg_port() -> (r: u16)
    ensures
        r == 5432,
{
    5432
}

/// Endereço de bind padrão do servidor gRPC.
pub fn default_grpc_listen() -> (r: String)
    ensures
        r@ == "0.0.0.0:50051"@,
{
    "0.0.0.0:50051".to_owned()
}

/// Validade padrão das URLs pré-assinadas, em segundos.
pub fn default_url_ttl_secs() -> (r: u64)
    ensures
        r == 3600,
{
    3600
}

/// Teto padrão de itens por página.
pub fn default_grpc_page_limit() -> (r: u32)
    ensures
        r == 500,
{
    500
}

/// Schema padrão do catálogo.
pub fn default_schema() -> (r: String)
    ensures
        r@ == "imagens_satelite"@,
{
    "imagens_satelite".to_owned()
}

impl Default for GrpcConfig {
    fn default() -> (r: Self)
        ensures
            r.listen@ == "0.0.0.0:50051"@,
            r.url_ttl_secs == 3600,
            r.limite_pagina == 500,
    {
        GrpcConfig {
            listen: default_grpc_listen(),
            url_ttl_secs: default_url_ttl_secs(),
            limite_pagina: default_grpc_page_limit(),
        }
    }
}

impl Default for PipelineConfig {
    fn default() -> (r: Self)
        ensures
            r.work_dir@ == "data"@,
            r.c13_color_ramp@ == "assets/c13_noaa.txt"@,
            r.state_path@ == "data/state.db"@,
    {
        PipelineConfig {
            work_dir: default_work_dir(),
            c13_color_ramp: default_c13_ramp(),
            state_path: default_state_path(),
        }
    }
}

impl Config {
    /// Confere o que o TOML não garante: buckets com nome e produtos com nome e
    /// prefixo. Recusa pela primeira falha, na ordem em que os campos aparecem.
    pub fn validate(&self) -> (r: Result<(), ErroConfig>)
        ensures
            match r {
                Ok(_) => self.aceita(),
                Err(ErroConfig::SourceBucketVazio) => self.source.bucket@.len() == 0,
                Err(ErroConfig::DestinationBucketVazio) => {
                    &&& self.source.bucket@.len() > 0
                    &&& self.destination.bucket@.len() == 0
                },
                Err(ErroConfig::ProductNameVazio) => {
                    &&& self.buckets_validos()
                    &&& exists|k: int|
                        #[trigger] primeiro_invalido(self.products@, k)
                            && self.products@[k].name@.len() == 0
                },
                Err(ErroConfig::SourcePrefixVazio { produto }) => {
                    &&& self.buckets_validos()
                    &&& exists|k: int|
                        #[trigger] primeiro_invalido(self.products@, k)
                            && self.products@[k].name@.len() > 0
                            && self.products@[k].source_prefix@.len() == 0
                            && produto@ == self.products@[k].name@
                },
            },
            r is Ok <==> self.aceita(),
            r is Ok <==> {
                &&& self.source.bucket@.len() > 0
                &&& self.destination.bucket@.len() > 0
                &&& forall|i: int|
                    0 <= i < self.products@.len() ==> (#[trigger] self.products@[i]).name@.len() > 0
                        && self.products@[i].source_prefix@.len() > 0
            },
    {
        if self.source.bucket.as_str().is_empty() {
            return Err(ErroConfig::SourceBucketVazio);
        }
        if self.destination.bucket.as_str().is_empty() {
            return Err(ErroConfig::DestinationBucketVazio);
        }
        let mut i: usize = 0;
        while i < self.products.len()
            invariant
                self.buckets_validos(),
                i <= self.products@.len(),
                forall|j: int| 0 <= j < i ==> produto_valido(#[trigger] self.products@[j]),
            decreases self.products@.len() - i,
        {
            let p = &self.products[i];
            if p.name.as_str().is_empty() {
                assert(primeiro_invalido(self.products@, i as int));
                return Err(ErroConfig::ProductNameVazio);
            }
            if p.source_prefix.as_str().is_empty() {
                assert(primeiro_invalido(self.products@, i as int));
                return Err(ErroConfig::SourcePrefixVazio { produto: p.name.clone() });
            }
            i = i + 1;
        }
        Ok(())
    }
}

impl ErroConfig {
    /// A mensagem do erro.
    pub open spec fn mensagem_modelo(self) -> Seq<char> {
        match self {
            ErroConfig::SourceBucketVazio => "source.bucket vazio"@,
            ErroConfig::DestinationBucketVazio => "destination.bucket vazio"@,
            ErroConfig::ProductNameVazio => "product.name vazio"@,
            ErroConfig::SourcePrefixVazio { produto } => "product.source_prefix vazio para '"@
                + produto@ + "'"@,
        }
    }

    /// A mensagem do erro, como aparece para o operador.
    pub fn mensagem(&self) -> (r: String)
        ensures
            r@ == self.mensagem_modelo(),
            self matches ErroConfig::SourcePrefixVazio { produto } ==> r@
                == "product.source_prefix vazio para '"@ + produto@ + "'"@,
    {
        match self {
            ErroConfig::SourceBucketVazio => "source.bucket vazio".to_owned(),
            ErroConfig::DestinationBucketVazio => "destination.bucket vazio".to_owned(),
            ErroConfig::ProductNameVazio => "product.name vazio".to_owned(),
            ErroConfig::SourcePrefixVazio { produto } => {
                let mut s = "product.source_prefix vazio para '".to_owned();
                s.append(produto.as_str());
                s.append("'");
                s
            },
        }
    }
}

/// O endereço de bind do servidor: o da linha de comando, se veio, senão o da
/// configuração.
pub fn endereco_bind(config: &Config, listen: Option<String>) -> (r: String)
    ensures
        r@ == (match listen {
            Some(l) => l@,
            None => config.grpc.listen@,
        }),
{
    match listen {
        Some(l) => l,
        None => config.grpc.listen.clone(),
    }
}

} // verus!
