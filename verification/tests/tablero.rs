use buscaminas::buscaminas::Buscaminas;
use buscaminas::error::ErrorTablero;

#[test]
fn buscaminas_se_crea_exitosamente() {
    let data: &[u8] = &[
        46, 42, 46, 42, 46, 46, 46, 46, 10, 46, 46, 42, 46, 46, 46, 46, 46, 10,
    ];
    let primer_fila: Vec<u8> = vec![46, 42, 46, 42, 46, 46, 46, 46];
    let segunda_fila: Vec<u8> = vec![46, 46, 42, 46, 46, 46, 46, 46];

    let mut matriz = vec![];
    matriz.push(primer_fila);
    matriz.push(segunda_fila);
    let buscaminas = Buscaminas::new(data);
    match buscaminas {
        Ok(buscaminas) => assert_eq!(&matriz, buscaminas.tablero()),
        Err(_) => assert!(false),
    }
}

#[test]
fn el_numero_de_filas_es_el_correcto() {
    let data: &[u8] = &[
        46, 42, 46, 42, 46, 46, 46, 46, 10, 46, 46, 42, 46, 46, 46, 46, 46, 10,
    ];
    let buscaminas = Buscaminas::new(data);
    match buscaminas {
        Ok(buscaminas) => assert_eq!(2, buscaminas.filas()),
        Err(_) => assert!(false),
    }
}

#[test]
fn el_numero_de_columnas_es_el_correcto() {
    let data: &[u8] = &[
        46, 42, 46, 42, 46, 46, 46, 46, 10, 46, 46, 42, 46, 46, 46, 46, 46, 10,
    ];
    let buscaminas = Buscaminas::new(data);
    match buscaminas {
        Ok(buscaminas) => assert_eq!(8, buscaminas.columnas()),
        Err(_) => assert!(false),
    }
}

#[test]
fn numero_de_minas_adyacentes_correcto() {
    let data = ".*\n".to_string();
    let resultado = '1';

    let buscaminas = Buscaminas::new(data.as_bytes());
    match buscaminas {
        Ok(buscaminas) => assert_eq!(
            resultado,
            (buscaminas.get_cantidad_de_minas(0, 0) + b'0') as char
        ),
        Err(_) => assert!(false),
    }
}

#[test]
fn una_mina_cercana() {
    let data = ".*\n".to_string();
    let resultado = "1*\n".to_string();

    let buscaminas = Buscaminas::new(data.as_bytes());
    match buscaminas {
        Ok(buscaminas) => assert_eq!(resultado, buscaminas.buscar()),
        Err(_) => assert!(false),
    }
}

#[test]
fn buscaminas_funciona_correctamente() {
    let data = ".*.*.\n..*..\n..*..\n.....\n".to_string();
    let resultado = "1*3*1\n13*31\n.2*2.\n.111.\n".to_string();

    let buscaminas = Buscaminas::new(data.as_bytes());
    match buscaminas {
        Ok(buscaminas) => assert_eq!(resultado, buscaminas.buscar()),
        Err(_) => assert!(false),
    };
}

#[test]
fn buscaminas_cuenta_correctamente() {
    let tablero = ".*.*.\n..*..\n..*..\n.....\n".to_string();
    let buscaminas = Buscaminas::new(tablero.as_bytes()).unwrap();
    let resultado = "1*3*1\n13*31\n.2*2.\n.111.\n".to_string();
    assert_eq!(resultado, buscaminas.buscar());
}

#[test]
fn buscaminas_falla_con_formato_incorrecto() {
    let buscaminas = Buscaminas::new("..7..".as_bytes());
    match buscaminas {
        Ok(_) => assert!(false, "deberia devolver error"),
        Err(_) => assert!(true),
    }
}

#[test]
fn buscaminas_falla_con_matriz_no_rectangular() {
    let buscaminas = Buscaminas::new("....\n...".as_bytes());
    match buscaminas {
        Ok(_) => assert!(false, "deberia devolver error"),
        Err(_) => assert!(true),
    }
}

#[test]
fn caracter_invalido_da_su_error() {
    assert_eq!(
        Some(ErrorTablero::CaracterInvalido),
        Buscaminas::new("..7..".as_bytes()).err()
    );
}

#[test]
fn filas_desiguales_dan_su_error() {
    assert_eq!(
        Some(ErrorTablero::TableroNoRectangular),
        Buscaminas::new("....\n...".as_bytes()).err()
    );
    assert_eq!(
        Some(ErrorTablero::TableroNoRectangular),
        Buscaminas::new(".\n..\n".as_bytes()).err()
    );
    assert_eq!(
        Some(ErrorTablero::TableroNoRectangular),
        Buscaminas::new("**\n**\n***\n".as_bytes()).err()
    );
}

#[test]
fn caracter_invalido_en_cualquier_posicion() {
    let entradas: Vec<&str> = vec![
        "x..\n...\n",
        "..x\n...\n",
        "...\nx..\n",
        "...\n...x",
        "...\n...\nx",
        "...\n\n0",
        " ",
        "..\r\n..\r\n",
        "0",
    ];
    for entrada in entradas {
        assert_eq!(
            Some(ErrorTablero::CaracterInvalido),
            Buscaminas::new(entrada.as_bytes()).err()
        );
    }
    for b in 0..=255u8 {
        let entrada = vec![b'.', b, b'.'];
        let resultado = Buscaminas::new(&entrada);
        if b == b'.' || b == b'*' || b == b'\n' {
            assert!(resultado.is_ok());
        } else {
            assert_eq!(Some(ErrorTablero::CaracterInvalido), resultado.err());
        }
    }
}

#[test]
fn caracter_invalido_antes_que_filas_desiguales() {
    assert_eq!(
        Some(ErrorTablero::CaracterInvalido),
        Buscaminas::new("....\n..7".as_bytes()).err()
    );
    assert_eq!(
        Some(ErrorTablero::CaracterInvalido),
        Buscaminas::new(".\n..\n...\n?".as_bytes()).err()
    );
}

#[test]
fn saltos_seguidos_no_abren_fila() {
    let buscaminas = Buscaminas::new("..\n\n..".as_bytes()).unwrap();
    assert_eq!(2, buscaminas.filas());
    assert_eq!(2, buscaminas.columnas());
    let matriz: Vec<Vec<u8>> = vec![vec![46, 46], vec![46, 46]];
    assert_eq!(&matriz, buscaminas.tablero());
    assert_eq!("..\n..\n".to_string(), buscaminas.buscar());

    let buscaminas = Buscaminas::new(".*\n\n\n\n*.\n\n".as_bytes()).unwrap();
    let matriz: Vec<Vec<u8>> = vec![vec![46, 42], vec![42, 46]];
    assert_eq!(&matriz, buscaminas.tablero());
    assert_eq!("2*\n*2\n".to_string(), buscaminas.buscar());
}

#[test]
fn el_salto_final_es_opcional() {
    let con = Buscaminas::new(".*.\n*..\n".as_bytes()).unwrap();
    let sin = Buscaminas::new(".*.\n*..".as_bytes()).unwrap();
    assert_eq!(con.tablero(), sin.tablero());
    assert_eq!(2, sin.filas());
    assert_eq!(3, sin.columnas());
    assert_eq!("2*1\n*21\n".to_string(), sin.buscar());
}

#[test]
fn entrada_sin_filas() {
    let buscaminas = Buscaminas::new(&[]).unwrap();
    assert_eq!(0, buscaminas.filas());
    assert_eq!(0, buscaminas.columnas());
    assert!(buscaminas.tablero().is_empty());
    assert_eq!(String::new(), buscaminas.buscar());
    assert_eq!(0, buscaminas.get_cantidad_de_minas(0, 0));
}

#[test]
fn linea_en_blanco_inicial_no_es_fila() {
    let buscaminas = Buscaminas::new("\n..".as_bytes()).unwrap();
    assert_eq!(1, buscaminas.filas());
    assert_eq!(2, buscaminas.columnas());
    let matriz: Vec<Vec<u8>> = vec![vec![46, 46]];
    assert_eq!(&matriz, buscaminas.tablero());
    assert_eq!("..\n".to_string(), buscaminas.buscar());

    let buscaminas = Buscaminas::new("\n..\n..\n".as_bytes()).unwrap();
    assert_eq!(2, buscaminas.filas());
    assert_eq!(2, buscaminas.columnas());
    let matriz: Vec<Vec<u8>> = vec![vec![46, 46], vec![46, 46]];
    assert_eq!(&matriz, buscaminas.tablero());

    let buscaminas = Buscaminas::new("\n\n\n.*\n\n*.".as_bytes()).unwrap();
    let matriz: Vec<Vec<u8>> = vec![vec![46, 42], vec![42, 46]];
    assert_eq!(&matriz, buscaminas.tablero());
    assert_eq!("2*\n*2\n".to_string(), buscaminas.buscar());

    assert_eq!(
        Some(ErrorTablero::TableroNoRectangular),
        Buscaminas::new("\n..\n.\n".as_bytes()).err()
    );
    assert_eq!(
        Some(ErrorTablero::CaracterInvalido),
        Buscaminas::new("\n7".as_bytes()).err()
    );
}

#[test]
fn solo_saltos_no_dan_filas() {
    let entradas: Vec<&str> = vec!["\n", "\n\n", "\n\n\n"];
    for entrada in entradas {
        let buscaminas = Buscaminas::new(entrada.as_bytes()).unwrap();
        assert_eq!(0, buscaminas.filas());
        assert_eq!(0, buscaminas.columnas());
        assert!(buscaminas.tablero().is_empty());
        assert_eq!(String::new(), buscaminas.buscar());
    }
}

#[test]
fn ninguna_fila_queda_vacia() {
    let entradas: Vec<&str> = vec![
        "\n.\n\n*\n",
        ".\n\n\n.\n\n",
        "\n\n*",
        "..\n\n..",
    ];
    for entrada in entradas {
        let buscaminas = Buscaminas::new(entrada.as_bytes()).unwrap();
        assert!(buscaminas.filas() > 0);
        assert!(buscaminas.columnas() > 0);
        for fila in buscaminas.tablero() {
            assert!(!fila.is_empty());
        }
    }
}

#[test]
fn una_sola_celda() {
    let vacia = Buscaminas::new(".".as_bytes()).unwrap();
    assert_eq!(1, vacia.filas());
    assert_eq!(1, vacia.columnas());
    assert_eq!(0, vacia.get_cantidad_de_minas(0, 0));
    assert_eq!(".\n".to_string(), vacia.buscar());

    let mina = Buscaminas::new("*".as_bytes()).unwrap();
    assert_eq!(1, mina.get_cantidad_de_minas(0, 0));
    assert_eq!("*\n".to_string(), mina.buscar());
}

#[test]
fn mensajes_de_error() {
    assert_eq!(
        "caracteres invalidos en la matriz",
        ErrorTablero::CaracterInvalido.mensaje()
    );
    assert_eq!(
        "matriz no rectangular",
        ErrorTablero::TableroNoRectangular.mensaje()
    );
    assert_ne!(
        ErrorTablero::CaracterInvalido,
        ErrorTablero::TableroNoRectangular
    );
}
