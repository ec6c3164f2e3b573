use coletor_imagem_radar::process::{
    apos_comando, limpeza, preparo, process, AcaoDir, Andamento, Job, Plano,
};

fn job(produto: &str) -> Job {
    Job {
        product_name: produto.into(),
        source_key: "ABI-L2-CMIPF/2026/149/14/x.nc".into(),
        local_nc: "data/x.nc".into(),
    }
}

fn plano() -> Plano {
    process(
        &job("abi-l2-cmipf-c13"),
        "/srv/data/x.nc",
        Some("x"),
        "data",
        "rampa.txt",
    )
    .unwrap()
}

#[test]
fn produto_sem_pipeline() {
    let e = process(&job("glm"), "/x", Some("x"), "data", "r").unwrap_err();
    assert_eq!(
        e.mensagem(),
        "sem pipeline de processamento para o produto 'glm'"
    );
}

#[test]
fn caminhos_do_plano() {
    let p = plano();
    assert_eq!(p.tmp, "data/tmp_x");
    assert_eq!(p.pmtiles, "data/x.pmtiles");
    let q = process(&job("abi-l2-cmipf-c13"), "/x.nc", Some("x"), "data/", "r").unwrap();
    assert_eq!(q.tmp, "data/tmp_x");
    let q = process(&job("abi-l2-cmipf-c13"), "/x.nc", None, "", "r").unwrap();
    assert_eq!((q.tmp.as_str(), q.pmtiles.as_str()), ("tmp_frame", "frame.pmtiles"));
}

#[test]
fn comandos_do_c13() {
    let p = plano();
    let programas: Vec<&str> = p.comandos.iter().map(|c| c.programa.as_str()).collect();
    assert_eq!(
        programas,
        vec!["gdal_calc.py", "gdalwarp", "gdaldem", "gdal_translate", "gdaladdo", "pmtiles"]
    );
    let formula = format!("((A * {}) + {}) - 273.15", 0.06145332f64, 89.620003f64);
    assert_eq!(
        p.comandos[0].args,
        vec![
            "-A",
            "NETCDF:\"/srv/data/x.nc\":CMI",
            "--outfile",
            "data/tmp_x/celsius.tif",
            "--calc",
            formula.as_str(),
            "--NoDataValue",
            "-999",
            "--type",
            "Float32",
            "--quiet",
        ]
    );
    assert_eq!(
        p.comandos[1].args,
        vec![
            "-t_srs", "EPSG:3857", "-te", "-100", "-56", "-20", "13", "-te_srs", "EPSG:4326",
            "-tr", "2000", "2000", "-r", "near", "-of", "GTiff", "-overwrite",
            "data/tmp_x/celsius.tif", "data/tmp_x/warped.tif",
        ]
    );
    assert_eq!(
        p.comandos[2].args,
        vec![
            "color-relief",
            "data/tmp_x/warped.tif",
            "rampa.txt",
            "data/tmp_x/colored.tif",
            "-alpha",
        ]
    );
    assert_eq!(
        p.comandos[3].args,
        vec![
            "-of",
            "MBTILES",
            "-co",
            "TILE_FORMAT=PNG",
            "data/tmp_x/colored.tif",
            "data/tmp_x/tiles.mbtiles",
        ]
    );
    assert_eq!(
        p.comandos[4].args,
        vec!["-r", "average", "data/tmp_x/tiles.mbtiles", "2", "4", "8", "16"]
    );
    assert_eq!(
        p.comandos[5].args,
        vec!["convert", "data/tmp_x/tiles.mbtiles", "data/x.pmtiles"]
    );
}

#[test]
fn contextos_dos_comandos() {
    let c: Vec<String> = plano().comandos.into_iter().map(|c| c.contexto).collect();
    assert_eq!(
        c,
        vec![
            "calibração (gdal_calc.py)",
            "reprojeção/recorte (gdalwarp)",
            "colormap (gdaldem color-relief)",
            "MBTiles (gdal_translate)",
            "overviews (gdaladdo)",
            "MBTiles→PMTiles (pmtiles convert)",
        ]
    );
}

#[test]
fn cada_comando_le_o_que_o_anterior_escreveu() {
    let p = plano();
    let c = &p.comandos;
    assert_eq!(c[1].args[17], c[0].args[3]);
    assert_eq!(c[2].args[1], c[1].args[18]);
    assert_eq!(c[3].args[4], c[2].args[3]);
    assert_eq!(c[5].args[1], c[3].args[5]);
    assert_eq!(c[5].args[2], p.pmtiles);
    assert!(c[0].args[3].starts_with(&p.tmp));
}

/// Roda o plano com o resultado de cada comando; devolve o fim e os que rodaram.
fn roda(p: &Plano, oks: [bool; 6]) -> (Andamento, Vec<usize>) {
    let mut rodados = Vec::new();
    let mut passo = Andamento::Rodar(0);
    while let Andamento::Rodar(k) = passo {
        rodados.push(k);
        passo = apos_comando(p, k, oks[k]);
    }
    (passo, rodados)
}

#[test]
fn pronto_so_se_os_seis_dao_certo() {
    let p = plano();
    let (fim, rodados) = roda(&p, [true; 6]);
    assert!(matches!(fim, Andamento::Pronto(f) if f == "data/x.pmtiles"));
    assert_eq!(rodados, vec![0, 1, 2, 3, 4, 5]);
}

#[test]
fn para_no_primeiro_comando_que_falha() {
    let p = plano();
    for falha in 0..6 {
        let mut oks = [true; 6];
        oks[falha] = false;
        oks[5] = false;
        let (fim, rodados) = roda(&p, oks);
        assert!(matches!(fim, Andamento::Falhou(k) if k == falha));
        assert_eq!(rodados.len(), falha + 1);
    }
}

#[test]
fn intermediarios_comecam_vazios_e_saem_no_fim() {
    let p = plano();
    let antes = preparo(&p);
    assert_eq!(antes.len(), 2);
    assert!(matches!(&antes[0], AcaoDir::Apagar(d) if d == "data/tmp_x"));
    assert!(matches!(&antes[1], AcaoDir::Criar(d) if d == "data/tmp_x"));
    let depois = limpeza(&p);
    assert_eq!(depois.len(), 1);
    assert!(matches!(&depois[0], AcaoDir::Apagar(d) if d == "data/tmp_x"));
}
