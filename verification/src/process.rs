//! Processamento por produto: o que rodar para virar PMTiles o `.nc` do C13 (ABI
//! L2 CMIPF, canal 13).
//!
//! Tudo via binários GDAL e `pmtiles convert`: calibração → recorte/reprojeção →
//! colormap → MBTiles → PMTiles. Aqui se monta o plano; quem o executa roda os
//! comandos em ordem e para no primeiro que falhar.

use crate::texto;
use vstd::prelude::*;

verus! {

broadcast use vstd::string::group_string_axioms;

/// Unidade de trabalho entregue pelo fetcher ao processador.
#[derive(Debug, Clone)]
pub struct Job {
    /// Nome do produto (ex.: `abi-l2-cmipf-c13`).
    pub product_name: String,
    /// Chave de origem no NODD (para mapear o destino).
    pub source_key: String,
    /// Caminho do `.nc` bruto no disco efêmero.
    pub local_nc: String,
}

/// Um comando externo.
#[derive(Debug)]
pub struct Comando {
    pub programa: String,
    pub args: Vec<String>,
    /// O que o comando faz, para o erro se ele falhar.
    pub contexto: String,
}

/// O plano de um job.
#[derive(Debug)]
pub struct Plano {
    /// Diretório dos intermediários: começa vazio e é apagado no sucesso.
    pub tmp: String,
    /// Os comandos, na ordem.
    pub comandos: Vec<Comando>,
    /// O arquivo que fica pronto.
    pub pmtiles: String,
}

/// Não há pipeline para o produto.
#[derive(Debug)]
pub struct SemPipeline {
    pub produto: String,
}

impl SemPipeline {
    /// A mensagem do erro, como aparece para o operador.
    pub fn mensagem(&self) -> (r: String)
        ensures
            r@ == "sem pipeline de processamento para o produto '"@ + self.produto@ + "'"@,
    {
        let mut s = "sem pipeline de processamento para o produto '".to_owned();
        s.append(self.produto.as_str());
        s.append("'");
        s
    }
}

// ---------------------------------------------------------------------------
// Caminhos
// ---------------------------------------------------------------------------

/// O caminho de um nome relativo dentro de um diretório.
pub open spec fn caminho(dir: Seq<char>, nome: Seq<char>) -> Seq<char> {
    if dir.len() == 0 {
        nome
    } else if dir.last() == '/' {
        dir + nome
    } else {
        dir + "/"@ + nome
    }
}

/// O caminho de um nome num diretório é o diretório, uma barra e o nome: a barra
/// que o diretório já traz no fim serve, e sem diretório fica só o nome.
pub proof fn lei_caminho(dir: Seq<char>, nome: Seq<char>)
    ensures
        ({
            let r = caminho(dir, nome);
            &&& nome.len() <= r.len()
            &&& r.skip(r.len() - nome.len()) == nome
            &&& dir.len() == 0 ==> r == nome
            &&& dir.len() > 0 ==> r.take(dir.len() as int) == dir
            &&& dir.len() > 0 ==> nome.len() < r.len() && r[r.len() - nome.len() - 1] == '/'
            &&& dir.len() > 0 && dir.last() == '/' ==> r.len() == dir.len() + nome.len()
            &&& dir.len() > 0 && dir.last() != '/' ==> r.len() == dir.len() + 1 + nome.len()
        }),
{
    reveal_strlit("/");
    let r = caminho(dir, nome);
    assert(r.skip(r.len() - nome.len()) =~= nome);
    if dir.len() > 0 {
        assert(r.take(dir.len() as int) =~= dir);
    }
}

/// Nomes diferentes dão caminhos diferentes no mesmo diretório.
pub proof fn lei_caminho_injetivo(dir: Seq<char>, a: Seq<char>, b: Seq<char>)
    requires
        caminho(dir, a) == caminho(dir, b),
    ensures
        a == b,
{
    lei_caminho(dir, a);
    lei_caminho(dir, b);
}

fn junta_caminho(dir: &str, nome: &str) -> (r: String)
    ensures
        r@ == caminho(dir@, nome@),
{
    let v = texto::letras(dir);
    let mut s = dir.to_owned();
    if v.len() > 0 && v[v.len() - 1] != '/' {
        s.append("/");
    }
    s.append(nome);
    assert(dir@.len() == 0 ==> s@ =~= nome@);
    s
}

/// O nome sem extensão que os arquivos do job levam: o do bruto, ou `frame` se
/// ele não é texto.
pub open spec fn radical_de(stem: Option<&str>) -> Seq<char> {
    match stem {
        Some(s) => s@,
        None => "frame"@,
    }
}

fn radical(stem: Option<&str>) -> (r: String)
    ensures
        r@ == radical_de(stem),
{
    match stem {
        Some(s) => s.to_owned(),
        None => "frame".to_owned(),
    }
}

// ---------------------------------------------------------------------------
// C13
// ---------------------------------------------------------------------------

/// O que um comando roda: programa, argumentos e contexto.
pub open spec fn roda(c: Comando) -> (Seq<char>, Seq<Seq<char>>, Seq<char>) {
    (c.programa@, texto::textos(c.args@), c.contexto@)
}

/// Calibração: conta crua → Kelvin → Celsius.
pub open spec fn calibra(nc: Seq<char>, celsius: Seq<char>) -> (
    Seq<char>,
    Seq<Seq<char>>,
    Seq<char>,
) {
    (
        "gdal_calc.py"@,
        seq![
            "-A"@,
            "NETCDF:\""@ + nc + "\":CMI"@,
            "--outfile"@,
            celsius,
            "--calc"@,
            "((A * 0.06145332) + 89.620003) - 273.15"@,
            "--NoDataValue"@,
            "-999"@,
            "--type"@,
            "Float32"@,
            "--quiet"@,
        ],
        "calibração (gdal_calc.py)"@,
    )
}

/// Reprojeção p/ Web Mercator + recorte no BBOX (tiles XYZ vivem em 3857), a
/// ~2 km.
pub open spec fn reprojeta(celsius: Seq<char>, warped: Seq<char>) -> (
    Seq<char>,
    Seq<Seq<char>>,
    Seq<char>,
) {
    (
        "gdalwarp"@,
        seq![
            "-t_srs"@,
            "EPSG:3857"@,
            "-te"@,
            texto::inteiro(crate::BBOX[0] as int),
            texto::inteiro(crate::BBOX[1] as int),
            texto::inteiro(crate::BBOX[2] as int),
            texto::inteiro(crate::BBOX[3] as int),
            "-te_srs"@,
            "EPSG:4326"@,
            "-tr"@,
            "2000"@,
            "2000"@,
            "-r"@,
            "near"@,
            "-of"@,
            "GTiff"@,
            "-overwrite"@,
            celsius,
            warped,
        ],
        "reprojeção/recorte (gdalwarp)"@,
    )
}

/// Colormap NOAA → RGBA.
pub open spec fn colore(warped: Seq<char>, ramp: Seq<char>, colored: Seq<char>) -> (
    Seq<char>,
    Seq<Seq<char>>,
    Seq<char>,
) {
    (
        "gdaldem"@,
        seq!["color-relief"@, warped, ramp, colored, "-alpha"@],
        "colormap (gdaldem color-relief)"@,
    )
}

/// RGBA → MBTiles (zoom base).
pub open spec fn ladrilha(colored: Seq<char>, mbtiles: Seq<char>) -> (
    Seq<char>,
    Seq<Seq<char>>,
    Seq<char>,
) {
    (
        "gdal_translate"@,
        seq!["-of"@, "MBTILES"@, "-co"@, "TILE_FORMAT=PNG"@, colored, mbtiles],
        "MBTiles (gdal_translate)"@,
    )
}

/// Overviews (zooms menores) no próprio MBTiles.
pub open spec fn reduz(mbtiles: Seq<char>) -> (Seq<char>, Seq<Seq<char>>, Seq<char>) {
    (
        "gdaladdo"@,
        seq!["-r"@, "average"@, mbtiles, "2"@, "4"@, "8"@, "16"@],
        "overviews (gdaladdo)"@,
    )
}

/// MBTiles → PMTiles.
pub open spec fn converte(mbtiles: Seq<char>, pmtiles: Seq<char>) -> (
    Seq<char>,
    Seq<Seq<char>>,
    Seq<char>,
) {
    (
        "pmtiles"@,
        seq!["convert"@, mbtiles, pmtiles],
        "MBTiles→PMTiles (pmtiles convert)"@,
    )
}

/// Os comandos do C13, na ordem, com os intermediários em `tmp`.
pub open spec fn comandos_c13(
    nc: Seq<char>,
    tmp: Seq<char>,
    ramp: Seq<char>,
    pmtiles: Seq<char>,
) -> Seq<(Seq<char>, Seq<Seq<char>>, Seq<char>)> {
    let celsius = caminho(tmp, "celsius.tif"@);
    let warped = caminho(tmp, "warped.tif"@);
    let colored = caminho(tmp, "colored.tif"@);
    let mbtiles = caminho(tmp, "tiles.mbtiles"@);
    seq![
        calibra(nc, celsius),
        reprojeta(celsius, warped),
        colore(warped, ramp, colored),
        ladrilha(colored, mbtiles),
        reduz(mbtiles),
        converte(mbtiles, pmtiles),
    ]
}

fn comando(programa: &str, args: Vec<String>, contexto: &str) -> (r: Comando)
    ensures
        roda(r) == (programa@, texto::textos(args@), contexto@),
{
    Comando { programa: programa.to_owned(), args, contexto: contexto.to_owned() }
}

fn comando_calibra(nc: &str, celsius: &str) -> (r: Comando)
    ensures
        roda(r) == calibra(nc@, celsius@),
{
    let mut cmi = "NETCDF:\"".to_owned();
    cmi.append(nc);
    cmi.append("\":CMI");
    let args = vec![
        "-A".to_owned(),
        cmi,
        "--outfile".to_owned(),
        celsius.to_owned(),
        "--calc".to_owned(),
        "((A * 0.06145332) + 89.620003) - 273.15".to_owned(),
        "--NoDataValue".to_owned(),
        "-999".to_owned(),
        "--type".to_owned(),
        "Float32".to_owned(),
        "--quiet".to_owned(),
    ];
    assert(texto::textos(args@) =~= calibra(nc@, celsius@).1);
    comando("gdal_calc.py", args, "calibração (gdal_calc.py)")
}

fn comando_reprojeta(celsius: &str, warped: &str) -> (r: Comando)
    ensures
        roda(r) == reprojeta(celsius@, warped@),
{
    let args = vec![
        "-t_srs".to_owned(),
        "EPSG:3857".to_owned(),
        "-te".to_owned(),
        texto::escreve_inteiro(crate::BBOX[0] as i128),
        texto::escreve_inteiro(crate::BBOX[1] as i128),
        texto::escreve_inteiro(crate::BBOX[2] as i128),
        texto::escreve_inteiro(crate::BBOX[3] as i128),
        "-te_srs".to_owned(),
        "EPSG:4326".to_owned(),
        "-tr".to_owned(),
        "2000".to_owned(),
        "2000".to_owned(),
        "-r".to_owned(),
        "near".to_owned(),
        "-of".to_owned(),
        "GTiff".to_owned(),
        "-overwrite".to_owned(),
        celsius.to_owned(),
        warped.to_owned(),
    ];
    assert(texto::textos(args@) =~= reprojeta(celsius@, warped@).1);
    comando("gdalwarp", args, "reprojeção/recorte (gdalwarp)")
}

/// Pipeline C13: NetCDF CMI → °C → reproj/crop 3857 → colormap → MBTiles →
/// PMTiles. `nc` é o caminho canônico do bruto e `stem`, o seu nome sem extensão.
fn process_c13(nc: &str, stem: Option<&str>, work_dir: &str, ramp: &str) -> (r: Plano)
    ensures
        r.tmp@ == caminho(work_dir@, "tmp_"@ + radical_de(stem)),
        r.pmtiles@ == caminho(work_dir@, radical_de(stem) + ".pmtiles"@),
        r.comandos@.map_values(|c: Comando| roda(c)) == comandos_c13(
            nc@,
            r.tmp@,
            ramp@,
            r.pmtiles@,
        ),
        r.comandos@.len() == 6,
{
    let stem = radical(stem);
    let mut nome_tmp = "tmp_".to_owned();
    nome_tmp.append(stem.as_str());
    let tmp = junta_caminho(work_dir, nome_tmp.as_str());
    let mut nome_pmtiles = stem;
    nome_pmtiles.append(".pmtiles");
    let pmtiles = junta_caminho(work_dir, nome_pmtiles.as_str());

    let celsius = junta_caminho(tmp.as_str(), "celsius.tif");
    let warped = junta_caminho(tmp.as_str(), "warped.tif");
    let colored = junta_caminho(tmp.as_str(), "colored.tif");
    let mbtiles = junta_caminho(tmp.as_str(), "tiles.mbtiles");

    let c1 = comando_calibra(nc, celsius.as_str());
    let c2 = comando_reprojeta(celsius.as_str(), warped.as_str());

    let a3 = vec![
        "color-relief".to_owned(),
        warped.clone(),
        ramp.to_owned(),
        colored.clone(),
        "-alpha".to_owned(),
    ];
    assert(texto::textos(a3@) =~= colore(warped@, ramp@, colored@).1);
    let c3 = comando("gdaldem", a3, "colormap (gdaldem color-relief)");

    let a4 = vec![
        "-of".to_owned(),
        "MBTILES".to_owned(),
        "-co".to_owned(),
        "TILE_FORMAT=PNG".to_owned(),
        colored.clone(),
        mbtiles.clone(),
    ];
    assert(texto::textos(a4@) =~= ladrilha(colored@, mbtiles@).1);
    let c4 = comando("gdal_translate", a4, "MBTiles (gdal_translate)");

    let a5 = vec![
        "-r".to_owned(),
        "average".to_owned(),
        mbtiles.clone(),
        "2".to_owned(),
        "4".to_owned(),
        "8".to_owned(),
        "16".to_owned(),
    ];
    assert(texto::textos(a5@) =~= reduz(mbtiles@).1);
    let c5 = comando("gdaladdo", a5, "overviews (gdaladdo)");

    let a6 = vec!["convert".to_owned(), mbtiles.clone(), pmtiles.clone()];
    assert(texto::textos(a6@) =~= converte(mbtiles@, pmtiles@).1);
    let c6 = comando("pmtiles", a6, "MBTiles→PMTiles (pmtiles convert)");

    let comandos = vec![c1, c2, c3, c4, c5, c6];
    assert(comandos@.map_values(|c: Comando| roda(c)) =~= comandos_c13(
        nc@,
        tmp@,
        ramp@,
        pmtiles@,
    ));
    Plano { tmp, comandos, pmtiles }
}

/// Despacha o job para o pipeline do produto e devolve o plano a executar. `nc`
/// é o caminho canônico de `job.local_nc` e `stem`, o seu nome sem extensão
/// (`None` se não é texto).
pub fn process(job: &Job, nc: &str, stem: Option<&str>, work_dir: &str, c13_ramp: &str) -> (r: Result<
    Plano,
    SemPipeline,
>)
    ensures
        r is Ok <==> job.product_name@ == "abi-l2-cmipf-c13"@,
        match r {
            Ok(p) => {
                &&& p.tmp@ == caminho(work_dir@, "tmp_"@ + radical_de(stem))
                &&& p.pmtiles@ == caminho(work_dir@, radical_de(stem) + ".pmtiles"@)
                &&& p.comandos@.map_values(|c: Comando| roda(c)) == comandos_c13(
                    nc@,
                    p.tmp@,
                    c13_ramp@,
                    p.pmtiles@,
                )
                &&& p.comandos@.len() == 6
                &&& stem is Some ==> p.tmp@ == caminho(work_dir@, "tmp_"@ + stem->0@)
                &&& stem is Some ==> p.pmtiles@ == caminho(work_dir@, stem->0@ + ".pmtiles"@)
                &&& stem is None ==> p.tmp@ == caminho(work_dir@, "tmp_"@ + "frame"@)
                &&& stem is None ==> p.pmtiles@ == caminho(work_dir@, "frame"@ + ".pmtiles"@)
            },
            Err(e) => e.produto@ == job.product_name@,
        },
{
    if texto::iguais(job.product_name.as_str(), "abi-l2-cmipf-c13") {
        Ok(process_c13(nc, stem, work_dir, c13_ramp))
    } else {
        Err(SemPipeline { produto: job.product_name.clone() })
    }
}

// ---------------------------------------------------------------------------
// Execução
// ---------------------------------------------------------------------------

/// O que fazer com um diretório.
#[derive(Debug)]
pub enum AcaoDir {
    /// Apaga o diretório e o que houver nele; não havendo, nada.
    Apagar(String),
    /// Cria o diretório.
    Criar(String),
}

/// Antes do primeiro comando: apaga os intermediários de uma tentativa anterior
/// (o diretório só é removido no sucesso, e um comando aborta se a saída já
/// existe) e recria o diretório, vazio.
pub fn preparo(plano: &Plano) -> (r: Vec<AcaoDir>)
    ensures
        r@.len() == 2,
        r@[0] matches AcaoDir::Apagar(d) && d@ == plano.tmp@,
        r@[1] matches AcaoDir::Criar(d) && d@ == plano.tmp@,
{
    vec![AcaoDir::Apagar(plano.tmp.clone()), AcaoDir::Criar(plano.tmp.clone())]
}

/// Depois do último comando: apaga os intermediários (o `.nc` bruto fica; quem o
/// apaga é a cauda, depois de catalogar).
pub fn limpeza(plano: &Plano) -> (r: Vec<AcaoDir>)
    ensures
        r@.len() == 1,
        r@[0] matches AcaoDir::Apagar(d) && d@ == plano.tmp@,
{
    vec![AcaoDir::Apagar(plano.tmp.clone())]
}

/// Onde a execução de um plano está.
#[derive(Debug)]
pub enum Andamento {
    /// Roda o comando desta posição.
    Rodar(usize),
    /// Todos os comandos deram certo: o arquivo está pronto.
    Pronto(String),
    /// O comando desta posição falhou, e nenhum outro roda.
    Falhou(usize),
}

/// Onde a execução fica depois que o comando `feitos` terminou.
pub open spec fn depois_do_comando(plano: Plano, feitos: int, ok: bool) -> Andamento {
    if !ok {
        Andamento::Falhou(feitos as usize)
    } else if feitos + 1 < plano.comandos@.len() {
        Andamento::Rodar((feitos + 1) as usize)
    } else {
        Andamento::Pronto(plano.pmtiles)
    }
}

/// O comando `feitos` terminou, com sucesso (`ok`) ou não: o que fazer a seguir.
/// A execução começa em `Andamento::Rodar(0)`.
pub fn apos_comando(plano: &Plano, feitos: usize, ok: bool) -> (r: Andamento)
    requires
        feitos < plano.comandos@.len(),
    ensures
        r == depois_do_comando(*plano, feitos as int, ok),
        !ok ==> r == Andamento::Falhou(feitos),
        ok && feitos + 1 < plano.comandos@.len() ==> r == Andamento::Rodar((feitos + 1) as usize),
        ok && feitos + 1 == plano.comandos@.len() ==> (r matches Andamento::Pronto(p) && p@
            == plano.pmtiles@),
{
    if !ok {
        return Andamento::Falhou(feitos);
    }
    let total = plano.comandos.len();
    if feitos + 1 < total {
        Andamento::Rodar(feitos + 1)
    } else {
        Andamento::Pronto(plano.pmtiles.clone())
    }
}

/// Onde a execução está depois de `n` comandos, se o de posição `k` termina como
/// `oks(k)`.
pub open spec fn execucao(plano: Plano, oks: spec_fn(int) -> bool, n: nat) -> Andamento
    decreases n,
{
    if n == 0 {
        Andamento::Rodar(0)
    } else {
        match execucao(plano, oks, (n - 1) as nat) {
            Andamento::Rodar(k) => depois_do_comando(plano, k as int, oks(k as int)),
            fim => fim,
        }
    }
}

/// A execução de um plano: um comando só roda se todos os anteriores deram certo;
/// ela para no primeiro que falha; e termina com o arquivo pronto exatamente
/// quando todos dão certo.
pub proof fn lei_execucao(plano: Plano, oks: spec_fn(int) -> bool, n: nat)
    requires
        0 < plano.comandos@.len() <= usize::MAX,
    ensures
        execucao(plano, oks, n) matches Andamento::Rodar(k) ==> k == n && k
            < plano.comandos@.len() && forall|j: int| 0 <= j < k ==> #[trigger] oks(j),
        execucao(plano, oks, n) matches Andamento::Falhou(k) ==> k < plano.comandos@.len()
            && !oks(k as int) && forall|j: int| 0 <= j < k ==> #[trigger] oks(j),
        execucao(plano, oks, n) matches Andamento::Pronto(p) ==> p == plano.pmtiles,
        n >= plano.comandos@.len() ==> (execucao(plano, oks, n) is Pronto <==> forall|j: int|
            0 <= j < plano.comandos@.len() ==> #[trigger] oks(j)),
        n >= plano.comandos@.len() ==> execucao(plano, oks, n) is Pronto || execucao(
            plano,
            oks,
            n,
        ) is Falhou,
{
    lema_execucao(plano, oks, n);
}

/// O que vale em cada ponto da execução.
proof fn lema_execucao(plano: Plano, oks: spec_fn(int) -> bool, n: nat)
    requires
        0 < plano.comandos@.len() <= usize::MAX,
    ensures
        match execucao(plano, oks, n) {
            Andamento::Rodar(k) => {
                &&& k == n
                &&& k < plano.comandos@.len()
                &&& forall|j: int| 0 <= j < k ==> #[trigger] oks(j)
            },
            Andamento::Falhou(k) => {
                &&& k < n
                &&& k < plano.comandos@.len()
                &&& !oks(k as int)
                &&& forall|j: int| 0 <= j < k ==> #[trigger] oks(j)
            },
            Andamento::Pronto(p) => {
                &&& p == plano.pmtiles
                &&& forall|j: int| 0 <= j < plano.comandos@.len() ==> #[trigger] oks(j)
            },
        },
    decreases n,
{
    if n > 0 {
        lema_execucao(plano, oks, (n - 1) as nat);
    }
}

/// A cadeia é contínua: a calibração lê o bruto, cada comando lê o que o
/// anterior escreveu, e o último escreve o PMTiles.
pub proof fn lei_cadeia_continua(
    nc: Seq<char>,
    tmp: Seq<char>,
    ramp: Seq<char>,
    pmtiles: Seq<char>,
)
    ensures
        ({
            let c = comandos_c13(nc, tmp, ramp, pmtiles);
            &&& c.len() == 6
            &&& c[0].1[1] == "NETCDF:\""@ + nc + "\":CMI"@
            &&& c[1].1[17] == c[0].1[3]
            &&& c[2].1[1] == c[1].1[18]
            &&& c[2].1[2] == ramp
            &&& c[3].1[4] == c[2].1[3]
            &&& c[4].1[2] == c[3].1[5]
            &&& c[5].1[1] == c[3].1[5]
            &&& c[5].1[2] == pmtiles
        }),
{
}

/// Nenhum comando escreve por cima do que outro escreveu: os quatro
/// intermediários têm nomes diferentes.
pub proof fn lei_intermediarios_distintos(
    nc: Seq<char>,
    tmp: Seq<char>,
    ramp: Seq<char>,
    pmtiles: Seq<char>,
)
    ensures
        ({
            let c = comandos_c13(nc, tmp, ramp, pmtiles);
            &&& c[0].1[3] != c[1].1[18]
            &&& c[0].1[3] != c[2].1[3]
            &&& c[0].1[3] != c[3].1[5]
            &&& c[1].1[18] != c[2].1[3]
            &&& c[1].1[18] != c[3].1[5]
            &&& c[2].1[3] != c[3].1[5]
        }),
{
    let a = "celsius.tif"@;
    let b = "warped.tif"@;
    let c = "colored.tif"@;
    let d = "tiles.mbtiles"@;
    reveal_strlit("celsius.tif");
    reveal_strlit("warped.tif");
    reveal_strlit("colored.tif");
    reveal_strlit("tiles.mbtiles");
    assert(a[1] == 'e' && c[1] == 'o');
    assert(a.len() == 11 && b.len() == 10 && c.len() == 11 && d.len() == 13);
    lema_caminhos_diferentes(tmp, a, b);
    lema_caminhos_diferentes(tmp, a, c);
    lema_caminhos_diferentes(tmp, a, d);
    lema_caminhos_diferentes(tmp, b, c);
    lema_caminhos_diferentes(tmp, b, d);
    lema_caminhos_diferentes(tmp, c, d);
}

proof fn lema_caminhos_diferentes(dir: Seq<char>, a: Seq<char>, b: Seq<char>)
    requires
        a != b,
    ensures
        caminho(dir, a) != caminho(dir, b),
{
    if caminho(dir, a) == caminho(dir, b) {
        lei_caminho_injetivo(dir, a, b);
    }
}

/// Dois brutos de nomes diferentes não disputam diretório nem arquivo pronto; o
/// mesmo nome dá sempre os mesmos.
pub proof fn lei_jobs_sem_conflito(work_dir: Seq<char>, a: &str, b: &str)
    ensures
        caminho(work_dir, "tmp_"@ + radical_de(Some(a))) == caminho(
            work_dir,
            "tmp_"@ + radical_de(Some(b)),
        ) <==> a@ == b@,
        caminho(work_dir, radical_de(Some(a)) + ".pmtiles"@) == caminho(
            work_dir,
            radical_de(Some(b)) + ".pmtiles"@,
        ) <==> a@ == b@,
{
    let ta = "tmp_"@ + radical_de(Some(a));
    let tb = "tmp_"@ + radical_de(Some(b));
    let pa = radical_de(Some(a)) + ".pmtiles"@;
    let pb = radical_de(Some(b)) + ".pmtiles"@;
    if caminho(work_dir, ta) == caminho(work_dir, tb) {
        lei_caminho_injetivo(work_dir, ta, tb);
        assert(a@ =~= ta.skip("tmp_"@.len() as int));
        assert(b@ =~= tb.skip("tmp_"@.len() as int));
    }
    if caminho(work_dir, pa) == caminho(work_dir, pb) {
        lei_caminho_injetivo(work_dir, pa, pb);
        assert(a@ =~= pa.take(pa.len() - ".pmtiles"@.len()));
        assert(b@ =~= pb.take(pb.len() - ".pmtiles"@.len()));
    }
}

/// Os programas da cadeia, na ordem.
pub proof fn lei_programas(nc: Seq<char>, tmp: Seq<char>, ramp: Seq<char>, pmtiles: Seq<char>)
    ensures
        comandos_c13(nc, tmp, ramp, pmtiles).map_values(
            |c: (Seq<char>, Seq<Seq<char>>, Seq<char>)| c.0,
        ) == seq![
            "gdal_calc.py"@,
            "gdalwarp"@,
            "gdaldem"@,
            "gdal_translate"@,
            "gdaladdo"@,
            "pmtiles"@,
        ],
{
    assert(comandos_c13(nc, tmp, ramp, pmtiles).map_values(
        |c: (Seq<char>, Seq<Seq<char>>, Seq<char>)| c.0,
    ) =~= seq![
        "gdal_calc.py"@,
        "gdalwarp"@,
        "gdaldem"@,
        "gdal_translate"@,
        "gdaladdo"@,
        "pmtiles"@,
    ]);
}

/// Todo intermediário fica dentro de `tmp`: apagá-lo não deixa resto.
pub proof fn lei_intermediarios_em_tmp(
    nc: Seq<char>,
    tmp: Seq<char>,
    ramp: Seq<char>,
    pmtiles: Seq<char>,
)
    requires
        tmp.len() > 0,
    ensures
        ({
            let c = comandos_c13(nc, tmp, ramp, pmtiles);
            &&& tmp.is_prefix_of(c[0].1[3])
            &&& tmp.is_prefix_of(c[1].1[18])
            &&& tmp.is_prefix_of(c[2].1[3])
            &&& tmp.is_prefix_of(c[3].1[5])
        }),
{
    lema_caminho_dentro(tmp, "celsius.tif"@);
    lema_caminho_dentro(tmp, "warped.tif"@);
    lema_caminho_dentro(tmp, "colored.tif"@);
    lema_caminho_dentro(tmp, "tiles.mbtiles"@);
}

proof fn lema_caminho_dentro(dir: Seq<char>, nome: Seq<char>)
    requires
        dir.len() > 0,
    ensures
        dir.is_prefix_of(caminho(dir, nome)),
{
    assert(dir =~= caminho(dir, nome).subrange(0, dir.len() as int));
}

} // verus!
