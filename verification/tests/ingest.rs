use coletor_imagem_radar::config::{
    Config, DatabaseConfig, DestinationConfig, GrpcConfig, PipelineConfig, ProductConfig,
    SourceConfig,
};
use coletor_imagem_radar::momento::Momento;
use coletor_imagem_radar::pipeline::{
    caminho_de_verificacao, caminhos_da_janela, espera, inicio_do_arquivo, inicio_do_poll,
    lista_mais, nome_arquivo, prefixos, proxima_etapa, proxima_etapa_do_poll, registro, Cauda,
    Etapa, EtapaPoll, Passo, Rodada, Varredura, JANELA_OVERLAP,
};
use time::{Date, Month};

fn momento(ano: i32, mes: Month, dia: u8, h: u8, m: u8) -> Momento {
    let t = Date::from_calendar_date(ano, mes, dia)
        .unwrap()
        .with_hms(h, m, 0)
        .unwrap()
        .assume_utc();
    Momento {
        nanos: t.unix_timestamp_nanos(),
        deslocamento: 0,
    }
}

fn produto(canal: Option<&str>, secs: u64) -> ProductConfig {
    ProductConfig {
        name: "abi-l2-cmipf-c13".into(),
        source_prefix: "ABI-L2-CMIPF".into(),
        channel: canal.map(|c| c.to_string()),
        poll_interval_secs: secs,
    }
}

fn config(products: Vec<ProductConfig>) -> Config {
    Config {
        source: SourceConfig {
            bucket: "noaa-goes19".into(),
            region: "us-east-1".into(),
        },
        destination: DestinationConfig {
            bucket: "tiles".into(),
            region: "us-east-1".into(),
            local_path: None,
            prefix: "".into(),
        },
        products,
        pipeline: PipelineConfig::default(),
        database: None,
        grpc: GrpcConfig::default(),
    }
}

fn com_banco(products: Vec<ProductConfig>) -> Config {
    let mut c = config(products);
    c.database = Some(DatabaseConfig {
        host: "h".into(),
        port: 5432,
        user: "u".into(),
        password: "".into(),
        dbname: "d".into(),
        schema: "s".into(),
        sslmode: None,
    });
    c
}

#[test]
fn janela_cruza_a_virada_de_ano() {
    let agora = momento(2026, Month::January, 1, 1, 30);
    assert_eq!(
        prefixos(&produto(None, 60), agora, 2),
        vec![
            "ABI-L2-CMIPF/2026/001/01/",
            "ABI-L2-CMIPF/2026/001/00/",
            "ABI-L2-CMIPF/2025/365/23/",
        ]
    );
    assert_eq!(prefixos(&produto(None, 60), agora, JANELA_OVERLAP).len(), 2);
    assert!(prefixos(&produto(None, 60), agora, -1).is_empty());
    // O caminho de um prefixo não leva a barra final.
    assert_eq!(
        caminhos_da_janela(&produto(None, 60), agora, 1),
        vec!["ABI-L2-CMIPF/2026/001/01", "ABI-L2-CMIPF/2026/001/00"]
    );
}

#[test]
fn varredura_filtra_canal_feitos_e_repetidos() {
    let mut v = Varredura::nova(&produto(Some("C13"), 60));
    assert!(v.casa("p/OR_M6C13_G19_s2.nc"));
    assert!(!v.casa("p/OR_M6C14_G19_s2.nc"));
    v.registra("p/OR_M6C13_G19_s3.nc".into(), false);
    v.registra("p/OR_M6C13_G19_s1.nc".into(), false);
    v.registra("p/OR_M6C13_G19_s2.nc".into(), true);
    v.registra("p/OR_M6C13_G19_s3.nc".into(), false);
    assert_eq!(
        v.fecha(0),
        vec!["p/OR_M6C13_G19_s1.nc", "p/OR_M6C13_G19_s3.nc"]
    );
    assert_eq!(v.fecha(1), vec!["p/OR_M6C13_G19_s1.nc"]);
    assert_eq!(v.fecha(9).len(), 2);
}

#[test]
fn varredura_sem_canal_aceita_tudo() {
    let mut v = Varredura::nova(&produto(None, 60));
    assert!(v.casa("qualquer"));
    v.registra("b".into(), false);
    v.registra("B".into(), false);
    v.registra("é".into(), false);
    v.registra("a".into(), false);
    // Ordem dos bytes, como a do bucket.
    assert_eq!(v.fecha(0), vec!["B", "a", "b", "é"]);
    assert!(Varredura::nova(&produto(None, 60)).fecha(0).is_empty());
}

#[test]
fn espera_o_menor_intervalo() {
    assert_eq!(espera(&vec![]), 120);
    assert_eq!(
        espera(&vec![produto(None, 300), produto(None, 20), produto(None, 60)]),
        20
    );
    assert_eq!(espera(&vec![produto(None, 600)]), 600);
}

#[test]
fn rodada_unica_varre_cada_produto_e_encerra() {
    let c = com_banco(vec![produto(None, 60), produto(None, 30)]);
    let mut r = Rodada::nova();
    let passos: Vec<Passo> = (0..7).map(|_| r.passo(&c, true)).collect();
    assert_eq!(
        passos,
        vec![
            Passo::AbrirOrigem,
            Passo::AbrirEstado,
            Passo::LerRelogio,
            Passo::Varrer(0),
            Passo::Varrer(1),
            Passo::Encerrar,
            Passo::Encerrar,
        ]
    );
}

#[test]
fn rodada_continua_aguarda_e_recomeca() {
    let c = com_banco(vec![produto(None, 60), produto(None, 30)]);
    let mut r = Rodada::nova();
    let passos: Vec<Passo> = (0..8).map(|_| r.passo(&c, false)).collect();
    assert_eq!(
        passos,
        vec![
            Passo::AbrirOrigem,
            Passo::AbrirEstado,
            Passo::LerRelogio,
            Passo::Varrer(0),
            Passo::Varrer(1),
            Passo::Aguardar(30),
            Passo::LerRelogio,
            Passo::Varrer(0),
        ]
    );
}

#[test]
fn sem_produto_encerra_de_saida() {
    let mut r = Rodada::nova();
    assert_eq!(r.passo(&config(vec![]), false), Passo::Encerrar);
    assert_eq!(Rodada::nova().passo(&com_banco(vec![]), true), Passo::Encerrar);
}

#[test]
fn sem_banco_recusa_antes_de_varrer() {
    let c = config(vec![produto(None, 60)]);
    let mut r = Rodada::nova();
    assert_eq!(r.passo(&c, true), Passo::AbrirOrigem);
    assert_eq!(r.passo(&c, true), Passo::Recusar);
    assert_eq!(r.passo(&c, false), Passo::Recusar);
}

fn poll(caminhos: usize, chaves: usize, ok: fn(EtapaPoll) -> bool) -> Vec<EtapaPoll> {
    let mut e = inicio_do_poll(caminhos);
    let mut etapas = vec![e];
    while e != EtapaPoll::Concluir && e != EtapaPoll::Falhar {
        e = proxima_etapa_do_poll(e, caminhos, chaves, ok(e));
        etapas.push(e);
    }
    etapas
}

#[test]
fn chave_que_falha_nao_impede_as_outras() {
    assert_eq!(
        poll(2, 2, |e| !matches!(e, EtapaPoll::Processar(_))),
        vec![
            EtapaPoll::Listar(0),
            EtapaPoll::Listar(1),
            EtapaPoll::Selecionar,
            EtapaPoll::Processar(0),
            EtapaPoll::Processar(1),
            EtapaPoll::Concluir,
        ]
    );
}

#[test]
fn listagem_que_falha_nao_processa_nada() {
    assert_eq!(
        poll(2, 5, |e| e != EtapaPoll::Listar(1)),
        vec![EtapaPoll::Listar(0), EtapaPoll::Listar(1), EtapaPoll::Falhar]
    );
}

#[test]
fn poll_sem_nada_novo_ou_sem_janela() {
    assert_eq!(
        poll(0, 0, |_| true),
        vec![EtapaPoll::Selecionar, EtapaPoll::Concluir]
    );
}

fn caminho(cauda: Cauda, falha_em: Option<Etapa>, em_disco: bool) -> Vec<Etapa> {
    let mut e = Etapa::VerLocal;
    let mut feitas = vec![e];
    while e != Etapa::Concluir && e != Etapa::Abortar {
        let ok = if e == Etapa::VerLocal {
            em_disco
        } else {
            Some(e) != falha_em
        };
        e = proxima_etapa(cauda, e, ok);
        feitas.push(e);
    }
    feitas
}

#[test]
fn cauda_do_c13() {
    assert_eq!(
        caminho(Cauda::C13, None, false),
        vec![
            Etapa::VerLocal,
            Etapa::Baixar,
            Etapa::Processar,
            Etapa::LerTiles,
            Etapa::Subir,
            Etapa::Catalogar,
            Etapa::ApagarBruto,
            Etapa::ApagarTiles,
            Etapa::Concluir,
        ]
    );
}

#[test]
fn cauda_do_glm_com_o_bruto_em_disco() {
    assert_eq!(
        caminho(Cauda::Glm, None, true),
        vec![
            Etapa::VerLocal,
            Etapa::Processar,
            Etapa::Catalogar,
            Etapa::ApagarBruto,
            Etapa::Concluir,
        ]
    );
}

#[test]
fn falha_nao_apaga_nem_cataloga() {
    for e in [
        Etapa::Baixar,
        Etapa::Processar,
        Etapa::LerTiles,
        Etapa::Subir,
        Etapa::Catalogar,
    ] {
        let feitas = caminho(Cauda::C13, Some(e), false);
        assert_eq!(*feitas.last().unwrap(), Etapa::Abortar);
        assert_eq!(feitas[feitas.len() - 2], e);
        assert!(!feitas.contains(&Etapa::ApagarBruto));
    }
    // Não conseguir apagar não desfaz o que foi catalogado.
    assert_eq!(
        *caminho(Cauda::C13, Some(Etapa::ApagarBruto), false).last().unwrap(),
        Etapa::Concluir
    );
}

#[test]
fn nome_e_inicio_do_arquivo() {
    let agora = momento(2026, Month::May, 29, 0, 0);
    assert_eq!(nome_arquivo("a/b/c.nc"), "c.nc");
    assert_eq!(nome_arquivo("c.nc"), "c.nc");
    assert_eq!(nome_arquivo("a/"), "");
    assert_eq!(inicio_do_arquivo("x.nc", agora), agora);
    assert_eq!(
        inicio_do_arquivo("OR_GLM-L2-LCFA_G19_s20261491400000_e20261491400200.nc", agora),
        momento(2026, Month::May, 29, 14, 0)
    );
}

#[test]
fn registro_de_um_frame() {
    let agora = momento(2026, Month::June, 1, 0, 0);
    let p = produto(Some("C13"), 60);
    let key = "ABI-L2-CMIPF/2026/149/14/OR_M6C13_G19_s20261491400000_e20261491409000_c1.nc";
    let r = registro(&p, "raiz", key, 1234, agora);
    assert_eq!(r.fonte, "noaa-goes-19");
    assert_eq!(r.produto, "abi-l2-cmipf-c13");
    assert_eq!(r.canal.as_deref(), Some("C13"));
    assert_eq!(r.chave_origem, key);
    assert_eq!(
        r.chave_destino,
        "raiz/goes19/abi-l2-cmipf-c13/2026/149/14/OR_M6C13_G19_s20261491400000_e20261491409000_c1.pmtiles"
    );
    assert_eq!(r.tamanho_bytes, 1234);
    assert_eq!(r.inicio, momento(2026, Month::May, 29, 14, 0));
    assert_eq!(r.fim, Some(momento(2026, Month::May, 29, 14, 9)));
    let r = registro(&p, "", "a/b.nc", 0, agora);
    assert_eq!(r.inicio, agora);
    assert_eq!(r.fim, None);
}

#[test]
fn verificacao_lista_a_hora_corrente_do_primeiro_produto() {
    let agora = momento(2026, Month::May, 29, 14, 37);
    assert_eq!(
        caminho_de_verificacao(&config(vec![produto(None, 60)]), agora).as_deref(),
        Some("ABI-L2-CMIPF/2026/149/14")
    );
    assert_eq!(caminho_de_verificacao(&config(vec![]), agora), None);
    assert!(lista_mais(4, 5));
    assert!(!lista_mais(5, 5));
}

#[test]
fn ordem_das_chaves_e_a_do_tempo() {
    let mut v = Varredura::nova(&produto(Some("C13"), 60));
    let nomes = [
        "p/OR_M6C13_G19_s20260010000000_e1_a.nc",
        "p/OR_M6C13_G19_s20253652359599_e9_z.nc",
        "p/OR_M6C13_G19_s20261491400208_e1_b.nc",
        "p/OR_M6C13_G19_s20260312359599_e1_c.nc",
    ];
    for n in nomes {
        v.registra(n.to_string(), false);
    }
    let agora = momento(2026, Month::June, 1, 0, 0);
    let tempos: Vec<i128> = v
        .fecha(0)
        .iter()
        .map(|k| inicio_do_arquivo(&nome_arquivo(k), agora).nanos)
        .collect();
    let mut em_ordem = tempos.clone();
    em_ordem.sort();
    assert_eq!(tempos, em_ordem);
    assert_eq!(tempos.len(), 4);
}
